//! The exact text of every line, and of the values in it.
//!
//! The laws here say what stands in a line character by character. They are what a consumer that
//! looks at the text can rely on; [`crate::reader`] says what one that parses it gets.

use crate::json;
use crate::json::Value;
use crate::output::Stage;
use crate::paths;
use crate::record;
use crate::record::{ErrorKind, Record, Tally, Totals};
use crate::walk;
use vstd::prelude::*;

verus! {

/// Whether a character stands for itself inside a string literal: it is no control character, no
/// quote and no backslash.
pub open spec fn plain(c: char) -> bool {
    &&& (c as nat) >= 0x20
    &&& !(0x7f <= (c as nat) <= 0x9f)
    &&& c != '"'
    &&& c != '\\'
}

proof fn lemma_plain(c: char)
    requires
        plain(c),
    ensures
        json::escape(c) == seq![c],
{
}

/// A text of plain characters stands as it is between the quotes of its literal.
pub proof fn law_plain_text_stands_as_it_is(text: Seq<char>)
    requires
        forall|i: int| 0 <= i < text.len() ==> plain(#[trigger] text[i]),
    ensures
        json::json_string(text) == seq!['"'] + text + seq!['"'],
    decreases text.len(),
{
    if text.len() == 0 {
        assert(text =~= Seq::empty());
    } else {
        let rest = text.drop_first();
        assert forall|i: int| 0 <= i < rest.len() implies plain(#[trigger] rest[i]) by {
            assert(rest[i] == text[i + 1]);
        }
        law_plain_text_stands_as_it_is(rest);
        assert(json::json_string(rest).skip(1).drop_last() =~= json::escaped(rest));
        assert(json::json_string(rest).skip(1).drop_last() =~= rest);
        assert(plain(text[0]));
        lemma_plain(text[0]);
        assert(seq![text[0]] + rest =~= text);
    }
}

proof fn lemma_escaped_concat(a: Seq<char>, b: Seq<char>)
    ensures
        json::escaped(a + b) == json::escaped(a) + json::escaped(b),
    decreases a.len(),
{
    if a.len() == 0 {
        assert(a + b =~= b);
        assert(json::escaped(a) + json::escaped(b) =~= json::escaped(b));
    } else {
        lemma_escaped_concat(a.drop_first(), b);
        assert((a + b).drop_first() =~= a.drop_first() + b);
        assert(json::escaped(a + b) =~= json::escaped(a) + json::escaped(b));
    }
}

/// Each part of a text is written without regard to the others: the literal of two texts joined is
/// their literals joined, without the quotes between them.
pub proof fn law_literals_join(a: Seq<char>, b: Seq<char>)
    ensures
        json::json_string(a + b) == json::json_string(a).drop_last() + json::json_string(b).skip(1),
{
    lemma_escaped_concat(a, b);
    assert(json::json_string(a + b) =~= json::json_string(a).drop_last() + json::json_string(
        b,
    ).skip(1));
}

/// The characters that do not stand for themselves: five have an escape of two characters, and the
/// control characters are written with the four digits of their code in lower case.
pub proof fn law_other_characters_are_escaped(c: char)
    ensures
        c == '"' ==> json::json_string(seq![c]) == seq!['"', '\\', '"', '"'],
        c == '\\' ==> json::json_string(seq![c]) == seq!['"', '\\', '\\', '"'],
        c == '\n' ==> json::json_string(seq![c]) == seq!['"', '\\', 'n', '"'],
        c == '\r' ==> json::json_string(seq![c]) == seq!['"', '\\', 'r', '"'],
        c == '\t' ==> json::json_string(seq![c]) == seq!['"', '\\', 't', '"'],
        !plain(c) && c != '"' && c != '\\' && c != '\n' && c != '\r' && c != '\t'
            ==> json::json_string(seq![c]) == seq![
            '"',
            '\\',
            'u',
            '0',
            '0',
            "0123456789abcdef"@[c as int / 0x10],
            "0123456789abcdef"@[c as int % 0x10],
            '"',
        ],
{
    reveal_strlit("0123456789abcdef");
    reveal_with_fuel(json::escaped, 2);
    assert(seq![c].drop_first() =~= Seq::empty());
    assert(json::json_string(seq![c]) =~= seq!['"'] + json::escape(c) + seq!['"']);
    assert(c == '"' ==> json::json_string(seq![c]) =~= seq!['"', '\\', '"', '"']);
    assert(c == '\\' ==> json::json_string(seq![c]) =~= seq!['"', '\\', '\\', '"']);
    assert(c == '\n' ==> json::json_string(seq![c]) =~= seq!['"', '\\', 'n', '"']);
    assert(c == '\r' ==> json::json_string(seq![c]) =~= seq!['"', '\\', 'r', '"']);
    assert(c == '\t' ==> json::json_string(seq![c]) =~= seq!['"', '\\', 't', '"']);
    if !plain(c) && c != '"' && c != '\\' && c != '\n' && c != '\r' && c != '\t' {
        assert(json::control(c));
        assert(json::json_string(seq![c]) =~= seq![
            '"',
            '\\',
            'u',
            '0',
            '0',
            "0123456789abcdef"@[c as int / 0x10],
            "0123456789abcdef"@[c as int % 0x10],
            '"',
        ]);
    }
}

/// A number is written in decimal: its last digit is what is left over by ten, and in front of it
/// stands the number of tens, where there are any.
pub proof fn law_number_is_decimal(tens: nat, ones: nat)
    requires
        ones < 10,
    ensures
        json::decimal(10 * tens + ones) == (if tens == 0 {
            Seq::empty()
        } else {
            json::decimal(tens)
        }).push("0123456789"@[ones as int]),
{
    reveal_strlit("0123456789");
    if tens == 0 {
        assert(json::decimal(ones) =~= Seq::empty().push("0123456789"@[ones as int]));
    } else {
        assert((10 * tens + ones) / 10 == tens);
        assert((10 * tens + ones) % 10 == ones);
    }
}

/// A text is appended as its literal, and what was there stays.
pub proof fn law_text_is_appended(out: &mut String, text: &str)
    requires
        call_ensures(json::push_json_string, (out, text), ()),
    ensures
        final(out)@ == old(out)@ + json::json_string(text@),
{
}

/// A number is appended in decimal, and what was there stays.
pub proof fn law_number_is_appended(out: &mut String, value: u64)
    requires
        call_ensures(json::push_number, (out, value), ()),
    ensures
        final(out)@ == old(out)@ + json::decimal(value as nat),
{
}

/// The control characters are those below the space, and those from the delete character up to the
/// last of the second block of control codes.
pub proof fn law_control_characters(c: char, result: bool)
    requires
        call_ensures(json::is_control, (c,), result),
    ensures
        result <==> (c as nat) < 0x20 || 0x7f <= (c as nat) <= 0x9f,
{
}


/// The text of an object so far, and of one more member with a plain name.
proof fn lemma_member(
    front: Seq<char>,
    members: Seq<(Seq<char>, Value)>,
    name: Seq<char>,
    value: Value,
    piece: Seq<char>,
)
    requires
        members.len() > 0,
        front == seq!['{'] + json::render_members(members),
        forall|i: int| 0 <= i < name.len() ==> plain(#[trigger] name[i]),
        piece == seq![',', '"'] + name + seq!['"', ':'],
    ensures
        front + piece + json::render_value(value) == seq!['{'] + json::render_members(
            members.push((name, value)),
        ),
{
    let after = members.push((name, value));
    assert(after.drop_last() =~= members);
    law_plain_text_stands_as_it_is(name);
    assert(front + piece + json::render_value(value) =~= seq!['{'] + json::render_members(after));
}

/// The text of an object with the members that every event begins with.
proof fn lemma_begin(name: Seq<char>, text: Seq<char>) -> (members: Seq<(Seq<char>, Value)>)
    requires
        forall|i: int| 0 <= i < name.len() ==> plain(#[trigger] name[i]),
        text == "{\"protocol\":1,\"type\":\""@ + name + seq!['"'],
    ensures
        members == seq![("protocol"@, Value::Number(1)), ("type"@, Value::Text(name))],
        text == seq!['{'] + json::render_members(members),
{
    reveal_strlit("protocol");
    reveal_strlit("type");
    reveal_strlit("{\"protocol\":1,\"type\":\"");
    let one = seq![("protocol"@, Value::Number(1))];
    let two = one.push(("type"@, Value::Text(name)));
    let front = seq!['{', '"'] + "protocol"@ + seq!['"', ':', '1'];
    assert(json::decimal(1) =~= seq!['1']);
    law_plain_text_stands_as_it_is("protocol"@);
    law_plain_text_stands_as_it_is(name);
    assert(front =~= seq!['{'] + json::render_members(one));
    let piece = seq![',', '"'] + "type"@ + seq!['"', ':'];
    lemma_member(front, one, "type"@, Value::Text(name), piece);
    assert(text =~= front + piece + json::render_value(Value::Text(name)));
    assert(two =~= seq![("protocol"@, Value::Number(1)), ("type"@, Value::Text(name))]);
    two
}

/// The value of a text that may not be known.
pub open spec fn known(text: Option<&str>) -> Option<Seq<char>> {
    match text {
        Some(text) => Some(text@),
        None => None,
    }
}

/// The literal of a text, or `null` where there is none.
pub open spec fn text_or_null(text: Option<Seq<char>>) -> Seq<char> {
    match text {
        Some(text) => json::json_string(text),
        None => seq!['n', 'u', 'l', 'l'],
    }
}

/// The text of the line of an entry.
pub open spec fn entry_text(
    path: Seq<char>,
    depth: nat,
    is_dir: bool,
    len: nat,
    allocated: nat,
) -> Seq<char> {
    "{\"protocol\":1,\"type\":\"entry\""@
        + ",\"path\":"@ + json::json_string(path)
        + ",\"depth\":"@ + json::decimal(depth)
        + ",\"kind\":"@ + (if is_dir { "\"dir\""@ } else { "\"file\""@ })
        + ",\"len\":"@ + json::decimal(len)
        + ",\"allocated\":"@ + json::decimal(allocated)
        + "}"@
}

/// The line of an entry is its text, with every value where it belongs.
pub proof fn law_entry_line_text(
    line: Seq<char>,
    path: Seq<char>,
    depth: nat,
    is_dir: bool,
    len: nat,
    allocated: nat,
)
    requires
        record::shows(line, Record::Entry { path, depth, is_dir, len, allocated }),
    ensures
        line == entry_text(path, depth, is_dir, len, allocated),
        line == "{\"protocol\":1,\"type\":\"entry\""@
            + ",\"path\":"@ + json::json_string(path)
            + ",\"depth\":"@ + json::decimal(depth)
            + ",\"kind\":"@ + (if is_dir { "\"dir\""@ } else { "\"file\""@ })
            + ",\"len\":"@ + json::decimal(len)
            + ",\"allocated\":"@ + json::decimal(allocated)
            + "}"@,
{
    reveal_strlit("entry");
    reveal_strlit("{\"protocol\":1,\"type\":\"");
    reveal_strlit("{\"protocol\":1,\"type\":\"entry\"");
    reveal_strlit("dir");
    reveal_strlit("file");
    reveal_strlit("\"dir\"");
    reveal_strlit("\"file\"");
    let kind_name = if is_dir { "dir"@ } else { "file"@ };
    let kind = if is_dir { "\"dir\""@ } else { "\"file\""@ };
    law_plain_text_stands_as_it_is(kind_name);
    assert(kind =~= json::json_string(kind_name));
    let text = "{\"protocol\":1,\"type\":\"entry\""@;
    assert(text =~= "{\"protocol\":1,\"type\":\""@ + "entry"@ + seq!['"']);
    let members = lemma_begin("entry"@, text);
    reveal_strlit("path");
    reveal_strlit(",\"path\":");
    assert(",\"path\":"@ =~= seq![',', '"'] + "path"@ + seq!['"', ':']);
    lemma_member(text, members, "path"@, Value::Text(path), ",\"path\":"@);
    let text = text + ",\"path\":"@ + json::json_string(path);
    let members = members.push(("path"@, Value::Text(path)));
    reveal_strlit("depth");
    reveal_strlit(",\"depth\":");
    assert(",\"depth\":"@ =~= seq![',', '"'] + "depth"@ + seq!['"', ':']);
    lemma_member(text, members, "depth"@, Value::Number(depth), ",\"depth\":"@);
    let text = text + ",\"depth\":"@ + json::decimal(depth);
    let members = members.push(("depth"@, Value::Number(depth)));
    reveal_strlit("kind");
    reveal_strlit(",\"kind\":");
    assert(",\"kind\":"@ =~= seq![',', '"'] + "kind"@ + seq!['"', ':']);
    lemma_member(text, members, "kind"@, Value::Text(kind_name), ",\"kind\":"@);
    let text = text + ",\"kind\":"@ + kind;
    let members = members.push(("kind"@, Value::Text(kind_name)));
    reveal_strlit("len");
    reveal_strlit(",\"len\":");
    assert(",\"len\":"@ =~= seq![',', '"'] + "len"@ + seq!['"', ':']);
    lemma_member(text, members, "len"@, Value::Number(len), ",\"len\":"@);
    let text = text + ",\"len\":"@ + json::decimal(len);
    let members = members.push(("len"@, Value::Number(len)));
    reveal_strlit("allocated");
    reveal_strlit(",\"allocated\":");
    assert(",\"allocated\":"@ =~= seq![',', '"'] + "allocated"@ + seq!['"', ':']);
    lemma_member(text, members, "allocated"@, Value::Number(allocated), ",\"allocated\":"@);
    let text = text + ",\"allocated\":"@ + json::decimal(allocated);
    let members = members.push(("allocated"@, Value::Number(allocated)));
    reveal_strlit("}");
    assert("}"@ =~= seq!['}']);
    assert(members =~= record::members(Record::Entry { path, depth, is_dir, len, allocated }, None));
}

/// The text of the first line of a scan.
pub open spec fn hello_text(version: Seq<char>, threads: nat, roots: nat) -> Seq<char> {
    "{\"protocol\":1,\"type\":\"hello\""@
        + ",\"version\":"@ + json::json_string(version)
        + ",\"threads\":"@ + json::decimal(threads)
        + ",\"roots\":"@ + json::decimal(roots)
        + ",\"order\":"@ + "\"parent-first\""@
        + "}"@
}

/// The first line of a scan is its text, with every value where it belongs.
pub proof fn law_hello_line_text(line: Seq<char>, version: Seq<char>, threads: nat, roots: nat)
    requires
        record::shows(line, Record::Hello { version, threads, roots }),
    ensures
        line == hello_text(version, threads, roots),
        line == "{\"protocol\":1,\"type\":\"hello\""@
            + ",\"version\":"@ + json::json_string(version)
            + ",\"threads\":"@ + json::decimal(threads)
            + ",\"roots\":"@ + json::decimal(roots)
            + ",\"order\":"@ + "\"parent-first\""@
            + "}"@,
{
    reveal_strlit("hello");
    reveal_strlit("{\"protocol\":1,\"type\":\"");
    reveal_strlit("{\"protocol\":1,\"type\":\"hello\"");
    reveal_strlit("parent-first");
    reveal_strlit("\"parent-first\"");
    law_plain_text_stands_as_it_is("parent-first"@);
    assert("\"parent-first\""@ =~= json::json_string("parent-first"@));
    let text = "{\"protocol\":1,\"type\":\"hello\""@;
    assert(text =~= "{\"protocol\":1,\"type\":\""@ + "hello"@ + seq!['"']);
    let members = lemma_begin("hello"@, text);
    reveal_strlit("version");
    reveal_strlit(",\"version\":");
    assert(",\"version\":"@ =~= seq![',', '"'] + "version"@ + seq!['"', ':']);
    lemma_member(text, members, "version"@, Value::Text(version), ",\"version\":"@);
    let text = text + ",\"version\":"@ + json::json_string(version);
    let members = members.push(("version"@, Value::Text(version)));
    reveal_strlit("threads");
    reveal_strlit(",\"threads\":");
    assert(",\"threads\":"@ =~= seq![',', '"'] + "threads"@ + seq!['"', ':']);
    lemma_member(text, members, "threads"@, Value::Number(threads), ",\"threads\":"@);
    let text = text + ",\"threads\":"@ + json::decimal(threads);
    let members = members.push(("threads"@, Value::Number(threads)));
    reveal_strlit("roots");
    reveal_strlit(",\"roots\":");
    assert(",\"roots\":"@ =~= seq![',', '"'] + "roots"@ + seq!['"', ':']);
    lemma_member(text, members, "roots"@, Value::Number(roots), ",\"roots\":"@);
    let text = text + ",\"roots\":"@ + json::decimal(roots);
    let members = members.push(("roots"@, Value::Number(roots)));
    reveal_strlit("order");
    reveal_strlit(",\"order\":");
    assert(",\"order\":"@ =~= seq![',', '"'] + "order"@ + seq!['"', ':']);
    lemma_member(text, members, "order"@, Value::Text("parent-first"@), ",\"order\":"@);
    let text = text + ",\"order\":"@ + "\"parent-first\""@;
    let members = members.push(("order"@, Value::Text("parent-first"@)));
    reveal_strlit("}");
    assert("}"@ =~= seq!['}']);
    assert(members =~= record::members(Record::Hello { version, threads, roots }, None));
}

/// The text of the line of an error whose failing path has the parent `parent`.
pub open spec fn error_text(
    root: Option<Seq<char>>,
    parent: Option<Seq<char>>,
    path: Option<Seq<char>>,
    kind: ErrorKind,
    message: Seq<char>,
) -> Seq<char> {
    "{\"protocol\":1,\"type\":\"error\""@
        + ",\"root\":"@ + text_or_null(root)
        + ",\"parent\":"@ + text_or_null(parent)
        + ",\"path\":"@ + text_or_null(path)
        + ",\"kind\":"@ + (match kind {
        ErrorKind::Root => "\"root\""@,
        ErrorKind::Metadata => "\"metadata\""@,
        ErrorKind::Read => "\"read\""@,
    })
        + ",\"message\":"@ + json::json_string(message)
        + "}"@
}

proof fn lemma_error_text(
    root: Option<Seq<char>>,
    parent: Option<Seq<char>>,
    path: Option<Seq<char>>,
    kind: ErrorKind,
    message: Seq<char>,
)
    ensures
        json::render_object(record::members(Record::Error { root, path, kind, message }, parent))
            == error_text(root, parent, path, kind, message),
{
    reveal_strlit("error");
    reveal_strlit("{\"protocol\":1,\"type\":\"");
    reveal_strlit("{\"protocol\":1,\"type\":\"error\"");
    reveal_strlit("root");
    reveal_strlit("\"root\"");
    reveal_strlit("metadata");
    reveal_strlit("\"metadata\"");
    reveal_strlit("read");
    reveal_strlit("\"read\"");
    let kind_name = match kind {
        ErrorKind::Root => "root"@,
        ErrorKind::Metadata => "metadata"@,
        ErrorKind::Read => "read"@,
    };
    let quoted = match kind {
        ErrorKind::Root => "\"root\""@,
        ErrorKind::Metadata => "\"metadata\""@,
        ErrorKind::Read => "\"read\""@,
    };
    law_plain_text_stands_as_it_is(kind_name);
    assert(quoted =~= json::json_string(kind_name));
    let text = "{\"protocol\":1,\"type\":\"error\""@;
    assert(text =~= "{\"protocol\":1,\"type\":\""@ + "error"@ + seq!['"']);
    let members = lemma_begin("error"@, text);
    reveal_strlit("root");
    reveal_strlit(",\"root\":");
    assert(",\"root\":"@ =~= seq![',', '"'] + "root"@ + seq!['"', ':']);
    assert(json::render_value(record::text_or_null(root)) =~= text_or_null(root));
    lemma_member(text, members, "root"@, record::text_or_null(root), ",\"root\":"@);
    let text = text + ",\"root\":"@ + text_or_null(root);
    let members = members.push(("root"@, record::text_or_null(root)));
    reveal_strlit("parent");
    reveal_strlit(",\"parent\":");
    assert(",\"parent\":"@ =~= seq![',', '"'] + "parent"@ + seq!['"', ':']);
    assert(json::render_value(record::text_or_null(parent)) =~= text_or_null(parent));
    lemma_member(text, members, "parent"@, record::text_or_null(parent), ",\"parent\":"@);
    let text = text + ",\"parent\":"@ + text_or_null(parent);
    let members = members.push(("parent"@, record::text_or_null(parent)));
    reveal_strlit("path");
    reveal_strlit(",\"path\":");
    assert(",\"path\":"@ =~= seq![',', '"'] + "path"@ + seq!['"', ':']);
    assert(json::render_value(record::text_or_null(path)) =~= text_or_null(path));
    lemma_member(text, members, "path"@, record::text_or_null(path), ",\"path\":"@);
    let text = text + ",\"path\":"@ + text_or_null(path);
    let members = members.push(("path"@, record::text_or_null(path)));
    reveal_strlit("kind");
    reveal_strlit(",\"kind\":");
    assert(",\"kind\":"@ =~= seq![',', '"'] + "kind"@ + seq!['"', ':']);
    lemma_member(text, members, "kind"@, Value::Text(kind_name), ",\"kind\":"@);
    let text = text + ",\"kind\":"@ + quoted;
    let members = members.push(("kind"@, Value::Text(kind_name)));
    reveal_strlit("message");
    reveal_strlit(",\"message\":");
    assert(",\"message\":"@ =~= seq![',', '"'] + "message"@ + seq!['"', ':']);
    lemma_member(text, members, "message"@, Value::Text(message), ",\"message\":"@);
    let text = text + ",\"message\":"@ + json::json_string(message);
    let members = members.push(("message"@, Value::Text(message)));
    reveal_strlit("}");
    assert("}"@ =~= seq!['}']);
    assert(members =~= record::members(Record::Error { root, path, kind, message }, parent));
}

/// The line of an error is its text, with every value where it belongs; what is not known is `null`.
/// The parent is that of the failing path.
pub proof fn law_error_line_text(
    line: Seq<char>,
    root: Option<Seq<char>>,
    path: Option<Seq<char>>,
    kind: ErrorKind,
    message: Seq<char>,
) -> (parent: Option<Seq<char>>)
    requires
        record::shows(line, Record::Error { root, path, kind, message }),
    ensures
        paths::is_parent_of(path, parent),
        line == error_text(root, parent, path, kind, message),
        line == "{\"protocol\":1,\"type\":\"error\""@
            + ",\"root\":"@ + text_or_null(root)
            + ",\"parent\":"@ + text_or_null(parent)
            + ",\"path\":"@ + text_or_null(path)
            + ",\"kind\":"@ + (match kind {
            ErrorKind::Root => "\"root\""@,
            ErrorKind::Metadata => "\"metadata\""@,
            ErrorKind::Read => "\"read\""@,
        })
            + ",\"message\":"@ + json::json_string(message)
            + "}"@,
{
    let record = Record::Error { root, path, kind, message };
    let parent = choose|parent: Option<Seq<char>>|
        {
            &&& paths::is_parent_of(record::failing_path(record), parent)
            &&& line == #[trigger] json::render_object(record::members(record, parent))
        };
    lemma_error_text(root, parent, path, kind, message);
    parent
}

/// The text of the line with the counters and sizes.
pub open spec fn summary_text(tally: Tally) -> Seq<char> {
    "{\"protocol\":1,\"type\":\"summary\""@
        + ",\"entries\":"@ + json::decimal(tally.entries)
        + ",\"errors\":"@ + json::decimal(tally.errors)
        + ",\"dirs\":"@ + json::decimal(tally.dirs)
        + ",\"files\":"@ + json::decimal(tally.files)
        + ",\"apparentBytes\":"@ + json::decimal(tally.apparent_bytes)
        + ",\"allocatedBytes\":"@ + json::decimal(tally.allocated_bytes)
        + "}"@
}

/// The line with the counters and sizes is its text, with every number where it belongs.
pub proof fn law_summary_line_text(line: Seq<char>, tally: Tally)
    requires
        record::shows(line, Record::Summary(tally)),
    ensures
        line == summary_text(tally),
        line == "{\"protocol\":1,\"type\":\"summary\""@
            + ",\"entries\":"@ + json::decimal(tally.entries)
            + ",\"errors\":"@ + json::decimal(tally.errors)
            + ",\"dirs\":"@ + json::decimal(tally.dirs)
            + ",\"files\":"@ + json::decimal(tally.files)
            + ",\"apparentBytes\":"@ + json::decimal(tally.apparent_bytes)
            + ",\"allocatedBytes\":"@ + json::decimal(tally.allocated_bytes)
            + "}"@,
{
    reveal_strlit("summary");
    reveal_strlit("{\"protocol\":1,\"type\":\"");
    reveal_strlit("{\"protocol\":1,\"type\":\"summary\"");
    let text = "{\"protocol\":1,\"type\":\"summary\""@;
    assert(text =~= "{\"protocol\":1,\"type\":\""@ + "summary"@ + seq!['"']);
    let members = lemma_begin("summary"@, text);
    reveal_strlit("entries");
    reveal_strlit(",\"entries\":");
    assert(",\"entries\":"@ =~= seq![',', '"'] + "entries"@ + seq!['"', ':']);
    lemma_member(text, members, "entries"@, Value::Number(tally.entries), ",\"entries\":"@);
    let text = text + ",\"entries\":"@ + json::decimal(tally.entries);
    let members = members.push(("entries"@, Value::Number(tally.entries)));
    reveal_strlit("errors");
    reveal_strlit(",\"errors\":");
    assert(",\"errors\":"@ =~= seq![',', '"'] + "errors"@ + seq!['"', ':']);
    lemma_member(text, members, "errors"@, Value::Number(tally.errors), ",\"errors\":"@);
    let text = text + ",\"errors\":"@ + json::decimal(tally.errors);
    let members = members.push(("errors"@, Value::Number(tally.errors)));
    reveal_strlit("dirs");
    reveal_strlit(",\"dirs\":");
    assert(",\"dirs\":"@ =~= seq![',', '"'] + "dirs"@ + seq!['"', ':']);
    lemma_member(text, members, "dirs"@, Value::Number(tally.dirs), ",\"dirs\":"@);
    let text = text + ",\"dirs\":"@ + json::decimal(tally.dirs);
    let members = members.push(("dirs"@, Value::Number(tally.dirs)));
    reveal_strlit("files");
    reveal_strlit(",\"files\":");
    assert(",\"files\":"@ =~= seq![',', '"'] + "files"@ + seq!['"', ':']);
    lemma_member(text, members, "files"@, Value::Number(tally.files), ",\"files\":"@);
    let text = text + ",\"files\":"@ + json::decimal(tally.files);
    let members = members.push(("files"@, Value::Number(tally.files)));
    reveal_strlit("apparentBytes");
    reveal_strlit(",\"apparentBytes\":");
    assert(",\"apparentBytes\":"@ =~= seq![',', '"'] + "apparentBytes"@ + seq!['"', ':']);
    lemma_member(text, members, "apparentBytes"@, Value::Number(tally.apparent_bytes), ",\"apparentBytes\":"@);
    let text = text + ",\"apparentBytes\":"@ + json::decimal(tally.apparent_bytes);
    let members = members.push(("apparentBytes"@, Value::Number(tally.apparent_bytes)));
    reveal_strlit("allocatedBytes");
    reveal_strlit(",\"allocatedBytes\":");
    assert(",\"allocatedBytes\":"@ =~= seq![',', '"'] + "allocatedBytes"@ + seq!['"', ':']);
    lemma_member(text, members, "allocatedBytes"@, Value::Number(tally.allocated_bytes), ",\"allocatedBytes\":"@);
    let text = text + ",\"allocatedBytes\":"@ + json::decimal(tally.allocated_bytes);
    let members = members.push(("allocatedBytes"@, Value::Number(tally.allocated_bytes)));
    reveal_strlit("}");
    assert("}"@ =~= seq!['}']);
    assert(members =~= record::members(Record::Summary(tally), None));
}

/// The text of the last line, after a scan with or without errors.
pub open spec fn done_text(errors: nat) -> Seq<char> {
    if errors == 0 {
        "{\"protocol\":1,\"type\":\"done\",\"exitCode\":0,\"ok\":true,\"reason\":\"completed\"}"@
    } else {
        "{\"protocol\":1,\"type\":\"done\",\"exitCode\":1,\"ok\":false,\"reason\":\"partial\"}"@
    }
}

proof fn lemma_done_text(errors: nat)
    ensures
        json::render_object(record::members(Record::Done { errors }, None)) == "{\"protocol\":1,\"type\":\"done\""@
                + ",\"exitCode\":"@ + json::decimal(if errors == 0 { 0 } else { 1 })
                + ",\"ok\":"@ + json::render_value(Value::Flag(errors == 0))
                + ",\"reason\":"@ + (if errors == 0 { "\"completed\""@ } else { "\"partial\""@ })
                + "}"@,
{
    reveal_strlit("done");
    reveal_strlit("{\"protocol\":1,\"type\":\"");
    reveal_strlit("{\"protocol\":1,\"type\":\"done\"");
    reveal_strlit("completed");
    reveal_strlit("partial");
    reveal_strlit("\"completed\"");
    reveal_strlit("\"partial\"");
    let code: nat = if errors == 0 { 0 } else { 1 };
    assert(json::decimal(code) =~= if errors == 0 { seq!['0'] } else { seq!['1'] });
    let flag = json::render_value(Value::Flag(errors == 0));
    let reason = if errors == 0 { "completed"@ } else { "partial"@ };
    let quoted = if errors == 0 { "\"completed\""@ } else { "\"partial\""@ };
    law_plain_text_stands_as_it_is(reason);
    assert(quoted =~= json::json_string(reason));
    let text = "{\"protocol\":1,\"type\":\"done\""@;
    assert(text =~= "{\"protocol\":1,\"type\":\""@ + "done"@ + seq!['"']);
    let members = lemma_begin("done"@, text);
    reveal_strlit("exitCode");
    reveal_strlit(",\"exitCode\":");
    assert(",\"exitCode\":"@ =~= seq![',', '"'] + "exitCode"@ + seq!['"', ':']);
    lemma_member(text, members, "exitCode"@, Value::Number(code), ",\"exitCode\":"@);
    let text = text + ",\"exitCode\":"@ + json::decimal(code);
    let members = members.push(("exitCode"@, Value::Number(code)));
    reveal_strlit("ok");
    reveal_strlit(",\"ok\":");
    assert(",\"ok\":"@ =~= seq![',', '"'] + "ok"@ + seq!['"', ':']);
    lemma_member(text, members, "ok"@, Value::Flag(errors == 0), ",\"ok\":"@);
    let text = text + ",\"ok\":"@ + flag;
    let members = members.push(("ok"@, Value::Flag(errors == 0)));
    reveal_strlit("reason");
    reveal_strlit(",\"reason\":");
    assert(",\"reason\":"@ =~= seq![',', '"'] + "reason"@ + seq!['"', ':']);
    lemma_member(text, members, "reason"@, Value::Text(reason), ",\"reason\":"@);
    let text = text + ",\"reason\":"@ + quoted;
    let members = members.push(("reason"@, Value::Text(reason)));
    reveal_strlit("}");
    assert("}"@ =~= seq!['}']);
    assert(members =~= record::members(Record::Done { errors }, None));
}

/// The last line says `ok`, exit code `0` and that the scan completed where there was no error at all,
/// and not `ok`, exit code `1` and that it is partial where there was one or more.
pub proof fn law_done_line_text(line: Seq<char>, errors: nat)
    requires
        record::shows(line, Record::Done { errors }),
    ensures
        line == done_text(errors),
        errors == 0 ==> line == "{\"protocol\":1,\"type\":\"done\",\"exitCode\":0,\"ok\":true,\"reason\":\"completed\"}"@,
        errors > 0 ==> line == "{\"protocol\":1,\"type\":\"done\",\"exitCode\":1,\"ok\":false,\"reason\":\"partial\"}"@,
{
    lemma_done_text(errors);
    reveal_strlit("{\"protocol\":1,\"type\":\"done\"");
    reveal_strlit(",\"exitCode\":");
    reveal_strlit(",\"ok\":");
    reveal_strlit(",\"reason\":");
    reveal_strlit("}");
    if errors == 0 {
        assert(json::decimal(0) =~= seq!['0']);
        reveal_strlit("\"completed\"");
        reveal_strlit("{\"protocol\":1,\"type\":\"done\",\"exitCode\":0,\"ok\":true,\"reason\":\"completed\"}");
        assert(line =~= "{\"protocol\":1,\"type\":\"done\",\"exitCode\":0,\"ok\":true,\"reason\":\"completed\"}"@);
    } else {
        assert(json::decimal(1) =~= seq!['1']);
        reveal_strlit("\"partial\"");
        reveal_strlit("{\"protocol\":1,\"type\":\"done\",\"exitCode\":1,\"ok\":false,\"reason\":\"partial\"}");
        assert(line =~= "{\"protocol\":1,\"type\":\"done\",\"exitCode\":1,\"ok\":false,\"reason\":\"partial\"}"@);
    }
}

/// What is written for the first line of a scan.
pub proof fn law_hello_line(version: &str, threads: usize, roots: usize, line: String)
    requires
        call_ensures(record::hello_line, (version, threads, roots), line),
    ensures
        line@ == hello_text(version@, threads as nat, roots as nat),
{
    law_hello_line_text(line@, version@, threads as nat, roots as nat);
}

/// What is written for an entry.
pub proof fn law_entry_line(
    path: &str,
    depth: usize,
    is_dir: bool,
    len: u64,
    allocated: u64,
    line: String,
)
    requires
        call_ensures(record::entry_line, (path, depth, is_dir, len, allocated), line),
    ensures
        line@ == entry_text(path@, depth as nat, is_dir, len as nat, allocated as nat),
{
    law_entry_line_text(line@, path@, depth as nat, is_dir, len as nat, allocated as nat);
}

/// What is written for an error whose parent is given.
pub proof fn law_error_line(
    root: Option<&str>,
    parent: Option<&str>,
    path: Option<&str>,
    kind: ErrorKind,
    message: &str,
    line: String,
)
    requires
        call_ensures(record::error_line, (root, parent, path, kind, message), line),
    ensures
        line@ == error_text(
            known(root),
            known(parent),
            known(path),
            kind,
            message@,
        ),
{
    lemma_error_text(
        paths::str_of(root),
        paths::str_of(parent),
        paths::str_of(path),
        kind,
        message@,
    );
}

/// What is written for an error, and that it is counted once and nothing else is.
pub proof fn law_reported_error(
    root: Option<&str>,
    exact_path: Option<&str>,
    kind: ErrorKind,
    message: &str,
    totals: &mut Totals,
    line: String,
) -> (parent: Option<Seq<char>>)
    requires
        call_ensures(record::report_error, (root, exact_path, kind, message, totals), line),
    ensures
        paths::is_parent_of(known(exact_path), parent),
        line@ == error_text(known(root), parent, known(exact_path), kind, message@),
        final(totals).errors == old(totals).errors + 1,
        final(totals).entries == old(totals).entries,
        final(totals).dirs == old(totals).dirs,
        final(totals).files == old(totals).files,
        final(totals).apparent_bytes == old(totals).apparent_bytes,
        final(totals).allocated_bytes == old(totals).allocated_bytes,
{
    law_error_line_text(line@, known(root), known(exact_path), kind, message@)
}

/// What is written for the counters and sizes.
pub proof fn law_summary_line(totals: &Totals, line: String)
    requires
        call_ensures(record::summary_line, (totals,), line),
    ensures
        line@ == summary_text(
            Tally {
                entries: totals.entries as nat,
                dirs: totals.dirs as nat,
                files: totals.files as nat,
                errors: totals.errors as nat,
                apparent_bytes: totals.apparent_bytes as nat,
                allocated_bytes: totals.allocated_bytes as nat,
            },
        ),
{
    law_summary_line_text(line@, totals@);
}

/// What is written last.
pub proof fn law_done_line(totals: &Totals, line: String)
    requires
        call_ensures(record::done_line, (totals,), line),
    ensures
        line@ == done_text(totals.errors as nat),
{
    law_done_line_text(line@, totals.errors as nat);
}

/// The names of the kinds of errors.
pub proof fn law_error_kind_name(kind: ErrorKind, name: &'static str)
    requires
        call_ensures(ErrorKind::name, (kind,), name),
    ensures
        kind is Root ==> name@ == "root"@,
        kind is Metadata ==> name@ == "metadata"@,
        kind is Read ==> name@ == "read"@,
{
}

/// The names of the kinds of entries.
pub proof fn law_entry_kind_name(is_dir: bool, kind: &'static str)
    requires
        call_ensures(walk::entry_kind, (is_dir,), kind),
    ensures
        is_dir ==> kind@ == "dir"@,
        !is_dir ==> kind@ == "file"@,
{
}

/// A directory takes up nothing, and any other entry what it takes up on disk, or nothing where that
/// is not known.
pub proof fn law_allocated_size(is_dir: bool, metadata: &walk::Metadata, bytes: u64)
    requires
        call_ensures(walk::allocated_size, (is_dir, metadata), bytes),
    ensures
        is_dir ==> bytes == 0,
        !is_dir ==> (metadata.size_on_disk matches Some(size) ==> bytes == size),
        metadata.size_on_disk is None ==> bytes == 0,
{
}

/// What a line that does not get through is reported as.
pub proof fn law_stage_context(stage: Stage, text: &'static str)
    requires
        call_ensures(Stage::context, (stage,), text),
    ensures
        stage is Write ==> text@ == "could not write NDJSON event"@,
        stage is Flush ==> text@ == "could not flush NDJSON event"@,
{
}

} // verus!
