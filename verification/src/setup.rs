//! Assistant configuration written by the setup: the managed rules block inside an
//! assistant's rules file, and where an MCP server entry goes in each config format.
use vstd::prelude::*;
use crate::db::{append_text, owned};
use crate::server::{find_sub_from, is_ws, lemma_find_sub_found};
use crate::text::{chars_at, chars_of, has_sub, push_char, text_contains};

verus! {

/// The line that opens the managed block.
pub open spec fn begin_marker() -> Seq<char> {
    "<!-- BEGIN PALAGENT-AI RULES — managed by palagent-ai setup -->"@
}

/// The line that closes the managed block.
pub open spec fn end_marker() -> Seq<char> {
    "<!-- END PALAGENT-AI RULES -->"@
}

/// The first index from `i` on that is not whitespace (or the length).
pub open spec fn trim_start_at(s: Seq<char>, i: int) -> int
    decreases s.len() - i,
{
    if 0 <= i < s.len() && is_ws(s[i]) {
        trim_start_at(s, i + 1)
    } else {
        i
    }
}

/// The index after the last character before `j` that is not whitespace (or `lo`).
pub open spec fn trim_end_at(s: Seq<char>, lo: int, j: int) -> int
    decreases j - lo,
{
    if lo < j && j <= s.len() && is_ws(s[j - 1]) {
        trim_end_at(s, lo, j - 1)
    } else {
        j
    }
}

/// `str::trim`: the text without leading and trailing whitespace.
pub open spec fn trimmed(s: Seq<char>) -> Seq<char> {
    let a = trim_start_at(s, 0);
    s.subrange(a, trim_end_at(s, a, s.len() as int))
}

/// The managed block for some rules text: the opening marker, the trimmed text and the
/// closing marker, on lines of their own.
pub open spec fn marker_block(content: Seq<char>) -> Seq<char> {
    begin_marker() + seq!['\n'] + trimmed(content) + seq!['\n'] + end_marker()
}

/// A rules file after installing the managed block. With an opening marker present, the
/// text from the first opening marker through the end of the first closing marker is
/// replaced by the block (the file stays as it is when there is no closing marker).
/// Without one, the block is appended on a line of its own, followed by a line feed.
pub open spec fn with_marker_block(file: Seq<char>, content: Seq<char>) -> Seq<char> {
    let block = marker_block(content);
    match find_sub_from(file, begin_marker(), 0) {
        Some(start) => match find_sub_from(file, end_marker(), 0) {
            Some(end) => file.take(start) + block + file.skip(end + end_marker().len()),
            None => file,
        },
        None => {
            let sep: Seq<char> = if file.len() > 0 && file.last() != '\n' {
                seq!['\n']
            } else {
                Seq::empty()
            };
            file + sep + block + seq!['\n']
        },
    }
}

/// The block can be cut out of the file only when the closing marker does not end
/// before the opening marker starts.
pub open spec fn marker_order_ok(file: Seq<char>) -> bool {
    match (find_sub_from(file, begin_marker(), 0), find_sub_from(file, end_marker(), 0)) {
        (Some(start), Some(end)) => start <= end + end_marker().len(),
        _ => true,
    }
}

fn text_range(cs: &Vec<char>, lo: usize, hi: usize, out: &mut String)
    requires
        lo <= hi <= cs@.len(),
    ensures
        final(out)@ == old(out)@ + cs@.subrange(lo as int, hi as int),
{
    let mut i = lo;
    while i < hi
        invariant
            lo <= i <= hi <= cs@.len(),
            out@ =~= old(out)@ + cs@.subrange(lo as int, i as int),
        decreases hi - i,
    {
        push_char(out, cs[i]);
        i = i + 1;
    }
}

/// `str::trim` (see `trimmed`).
pub fn trim_text(s: &str) -> (r: String)
    ensures
        r@ == trimmed(s@),
{
    let cs = chars_of(s);
    let mut a: usize = 0;
    while a < cs.len() && crate::server::is_ws_char(cs[a])
        invariant
            a <= cs@.len(),
            trim_start_at(cs@, 0) == trim_start_at(cs@, a as int),
        decreases cs@.len() - a,
    {
        a = a + 1;
    }
    let mut b: usize = cs.len();
    while b > a && crate::server::is_ws_char(cs[b - 1])
        invariant
            a <= b <= cs@.len(),
            trim_end_at(cs@, a as int, cs@.len() as int) == trim_end_at(cs@, a as int, b as int),
        decreases b - a,
    {
        b = b - 1;
    }
    let mut out = String::new();
    text_range(&cs, a, b, &mut out);
    assert(out@ =~= trimmed(s@));
    out
}

fn find_text(cs: &Vec<char>, pat: &str) -> (r: Option<usize>)
    ensures
        crate::wire::opt_pos(r) == find_sub_from(cs@, pat@, 0),
{
    let p = chars_of(pat);
    crate::server::find_sub_in(cs, &p)
}

/// The rules file text after installing the managed block (see `with_marker_block`).
pub fn inject_marker_block(file_content: &str, content: &str) -> (r: String)
    requires
        marker_order_ok(file_content@),
    ensures
        r@ == with_marker_block(file_content@, content@),
{
    let begin = "<!-- BEGIN PALAGENT-AI RULES — managed by palagent-ai setup -->";
    let end = "<!-- END PALAGENT-AI RULES -->";
    let mut block = owned(begin);
    push_char(&mut block, '\n');
    let t = trim_text(content);
    append_text(&mut block, t.as_str());
    push_char(&mut block, '\n');
    append_text(&mut block, end);
    assert(block@ =~= marker_block(content@));
    let cs = chars_of(file_content);
    let n = cs.len();
    match find_text(&cs, begin) {
        Some(start) => {
            proof {
                lemma_find_sub_found(cs@, begin_marker(), 0);
            }
            match find_text(&cs, end) {
                Some(e) => {
                    proof {
                        lemma_find_sub_found(cs@, end_marker(), 0);
                    }
                    let end_len = chars_of(end).len();
                    assert(e + end_len <= n);
                    let mut out = String::new();
                    text_range(&cs, 0, start, &mut out);
                    append_text(&mut out, block.as_str());
                    text_range(&cs, e + end_len, cs.len(), &mut out);
                    assert(out@ =~= cs@.take(start as int) + block@ + cs@.skip(
                        e + end_marker().len(),
                    ));
                    out
                },
                None => owned(file_content),
            }
        },
        None => {
            let mut out = owned(file_content);
            if cs.len() > 0 && cs[cs.len() - 1] != '\n' {
                push_char(&mut out, '\n');
            }
            append_text(&mut out, block.as_str());
            push_char(&mut out, '\n');
            out
        },
    }
}

/// The config file layouts an MCP server entry can be written in.
#[derive(Clone, Copy, PartialEq, Eq, Structural, Debug)]
pub enum McpFormat {
    McpServers,
    Servers,
    Opencode,
}

/// The top-level key under which a format lists its MCP servers.
pub open spec fn section_key(f: McpFormat) -> Seq<char> {
    match f {
        McpFormat::Opencode => "mcp"@,
        McpFormat::Servers => "servers"@,
        McpFormat::McpServers => "mcpServers"@,
    }
}

impl McpFormat {
    /// The top-level key under which this format lists its MCP servers.
    pub fn servers_key(&self) -> (r: &'static str)
        ensures
            r@ == section_key(*self),
    {
        match self {
            McpFormat::Opencode => "mcp",
            McpFormat::Servers => "servers",
            McpFormat::McpServers => "mcpServers",
        }
    }
}

/// A value in the server entry of a JSON MCP config: a string, a list of strings or a
/// boolean.
#[derive(Clone, Debug)]
pub enum EntryValue {
    Text(String),
    Texts(Vec<String>),
    Flag(bool),
}

/// The view of an entry value.
pub enum EntryView {
    Text(Seq<char>),
    Texts(Seq<Seq<char>>),
    Flag(bool),
}

pub open spec fn entry_value_view(v: EntryValue) -> EntryView {
    match v {
        EntryValue::Text(s) => EntryView::Text(s@),
        EntryValue::Texts(l) => EntryView::Texts(l@.map_values(|t: String| t@)),
        EntryValue::Flag(b) => EntryView::Flag(b),
    }
}

/// The fields of the `palagent-ai` server entry that each format registers: OpenCode a
/// local server with the command line as a list and the entry enabled; VS Code a stdio
/// server; the others the command and its arguments.
pub open spec fn server_entry_fields(f: McpFormat, command: Seq<char>) -> Seq<(Seq<char>, EntryView)> {
    match f {
        McpFormat::Opencode => seq![
            ("type"@, EntryView::Text("local"@)),
            ("command"@, EntryView::Texts(seq![command, "mcp"@])),
            ("enabled"@, EntryView::Flag(true)),
        ],
        McpFormat::Servers => seq![
            ("type"@, EntryView::Text("stdio"@)),
            ("command"@, EntryView::Text(command)),
            ("args"@, EntryView::Texts(seq!["mcp"@])),
        ],
        McpFormat::McpServers => seq![
            ("command"@, EntryView::Text(command)),
            ("args"@, EntryView::Texts(seq!["mcp"@])),
        ],
    }
}

/// The server entry for a format (see `server_entry_fields`).
pub fn server_entry(f: McpFormat, command: &str) -> (r: Vec<(&'static str, EntryValue)>)
    ensures
        r@.map_values(|e: (&'static str, EntryValue)| (e.0@, entry_value_view(e.1)))
            == server_entry_fields(f, command@),
{
    let mut r: Vec<(&'static str, EntryValue)> = Vec::new();
    let mcp = owned("mcp");
    match f {
        McpFormat::Opencode => {
            let mut line: Vec<String> = Vec::new();
            line.push(owned(command));
            line.push(mcp);
            let ghost lv = line@;
            r.push(("type", EntryValue::Text(owned("local"))));
            r.push(("command", EntryValue::Texts(line)));
            r.push(("enabled", EntryValue::Flag(true)));
            assert(lv.map_values(|t: String| t@) =~= seq![command@, "mcp"@]);
        },
        McpFormat::Servers => {
            let mut args: Vec<String> = Vec::new();
            args.push(mcp);
            let ghost av = args@;
            r.push(("type", EntryValue::Text(owned("stdio"))));
            r.push(("command", EntryValue::Text(owned(command))));
            r.push(("args", EntryValue::Texts(args)));
            assert(av.map_values(|t: String| t@) =~= seq!["mcp"@]);
        },
        McpFormat::McpServers => {
            let mut args: Vec<String> = Vec::new();
            args.push(mcp);
            let ghost av = args@;
            r.push(("command", EntryValue::Text(owned(command))));
            r.push(("args", EntryValue::Texts(args)));
            assert(av.map_values(|t: String| t@) =~= seq!["mcp"@]);
        },
    }
    assert(r@.map_values(|e: (&'static str, EntryValue)| (e.0@, entry_value_view(e.1)))
        =~= server_entry_fields(f, command@));
    r
}

/// What the format's section of a JSON MCP config holds.
#[derive(Clone, Copy, Debug)]
pub enum SectionState {
    Missing,
    Object,
    Other,
}

/// How the server entry is merged into a JSON MCP config.
#[derive(Clone, Copy, Debug)]
pub struct MergePlan {
    /// Start over from an empty object (the file did not hold one).
    pub reset: bool,
    /// Add the format's section as an empty object.
    pub add_section: bool,
    /// Put the entry (replacing any earlier one) into the section.
    pub put_entry: bool,
}

/// The merge: a file whose top level is not an object starts over empty; a missing
/// section is added; the entry goes into the section when it is (or became) an object, and
/// a section holding anything else is left as it is.
pub open spec fn merge_plan_of(top_is_object: bool, section: SectionState) -> (bool, bool, bool) {
    if !top_is_object {
        (true, true, true)
    } else {
        match section {
            SectionState::Missing => (false, true, true),
            SectionState::Object => (false, false, true),
            SectionState::Other => (false, false, false),
        }
    }
}

/// The merge for a config file (see `merge_plan_of`).
pub fn merge_plan(top_is_object: bool, section: SectionState) -> (r: MergePlan)
    ensures
        (r.reset, r.add_section, r.put_entry) == merge_plan_of(top_is_object, section),
{
    if !top_is_object {
        return MergePlan { reset: true, add_section: true, put_entry: true };
    }
    match section {
        SectionState::Missing => MergePlan { reset: false, add_section: true, put_entry: true },
        SectionState::Object => MergePlan { reset: false, add_section: false, put_entry: true },
        SectionState::Other => MergePlan { reset: false, add_section: false, put_entry: false },
    }
}

/// The section that registers the server in a Codex `config.toml`.
pub open spec fn codex_section(command: Seq<char>) -> Seq<char> {
    "\n[mcp_servers.palagent-ai]\ncommand = \""@ + command + "\"\nargs = [\"mcp\"]\n"@
}

/// A Codex `config.toml` after registering the server: `None` (the file is left alone)
/// when it already has a `[mcp_servers.palagent-ai]` section, else the text with the
/// section appended.
pub fn codex_config(content: &str, command: &str) -> (r: Option<String>)
    ensures
        r is None <==> has_sub(content@, "[mcp_servers.palagent-ai]"@),
        r matches Some(t) ==> t@ == content@ + codex_section(command@),
{
    if text_contains(content, "[mcp_servers.palagent-ai]") {
        return None;
    }
    let mut out = owned(content);
    append_text(&mut out, "\n[mcp_servers.palagent-ai]\ncommand = \"");
    append_text(&mut out, command);
    append_text(&mut out, "\"\nargs = [\"mcp\"]\n");
    assert(out@ =~= content@ + codex_section(command@));
    Some(out)
}

/// A path written with forward slashes: each backslash becomes `/`.
pub open spec fn forward_slashed(s: Seq<char>) -> Seq<char> {
    s.map_values(|c: char| if c == '\\' { '/' } else { c })
}

/// The text with every backslash replaced by `/` (as `str::replace("\\", "/")`).
pub fn forward_slashes(s: &str) -> (r: String)
    ensures
        r@ == forward_slashed(s@),
{
    let cs = chars_of(s);
    let mut out = String::new();
    let mut i: usize = 0;
    while i < cs.len()
        invariant
            i <= cs@.len(),
            cs@ == s@,
            out@ =~= forward_slashed(s@.take(i as int)),
        decreases cs@.len() - i,
    {
        let c = cs[i];
        push_char(&mut out, if c == '\\' { '/' } else { c });
        assert(s@.take(i + 1) =~= s@.take(i as int).push(c));
        i = i + 1;
    }
    assert(s@.take(cs@.len() as int) =~= s@);
    out
}

/// Whether a rules file's markers allow the block to be managed: an opening marker
/// found before the first closing marker, or no closing marker at all.
pub open spec fn markers_in_order(file: Seq<char>) -> bool {
    match (find_sub_from(file, begin_marker(), 0), find_sub_from(file, end_marker(), 0)) {
        (Some(start), Some(end)) => start < end,
        (None, Some(_)) => false,
        _ => true,
    }
}

proof fn lemma_marker_chars()
    ensures
        begin_marker().len() > 5,
        end_marker().len() > 5,
        begin_marker()[0] == '<',
        end_marker()[0] == '<',
        begin_marker()[5] != end_marker()[5],
        forall|k: int| 1 <= k < begin_marker().len() ==> begin_marker()[k] != '<',
        forall|k: int| 1 <= k < end_marker().len() ==> end_marker()[k] != '<',
        forall|k: int| 0 <= k < begin_marker().len() ==> begin_marker()[k] != '\n',
        forall|k: int| 0 <= k < end_marker().len() ==> end_marker()[k] != '\n',
{
    reveal_strlit("<!-- BEGIN PALAGENT-AI RULES — managed by palagent-ai setup -->");
    reveal_strlit("<!-- END PALAGENT-AI RULES -->");
}

proof fn lemma_find_first(s: Seq<char>, p: Seq<char>, i: int)
    requires
        0 <= i,
    ensures
        find_sub_from(s, p, i) matches Some(k) ==> i <= k && chars_at(s, k, p) && (forall|j: int|
            i <= j < k ==> !#[trigger] chars_at(s, j, p)),
        find_sub_from(s, p, i) is None ==> (forall|j: int| i <= j ==> !#[trigger] chars_at(s, j, p)),
    decreases s.len() + 1 - i,
{
    if i + p.len() > s.len() {
    } else if chars_at(s, i, p) {
    } else {
        lemma_find_first(s, p, i + 1);
    }
}

proof fn lemma_find_at(s: Seq<char>, p: Seq<char>, k: int)
    requires
        0 <= k,
        chars_at(s, k, p),
        forall|j: int| 0 <= j < k ==> !#[trigger] chars_at(s, j, p),
    ensures
        find_sub_from(s, p, 0) == Some(k),
{
    lemma_find_first(s, p, 0);
}

/// An occurrence in a prefix is an occurrence in the whole text, ending within the prefix.
proof fn lemma_prefix_occurrence(s: Seq<char>, n: int, p: Seq<char>, i: int)
    requires
        0 <= n <= s.len(),
        chars_at(s.take(n), i, p),
    ensures
        chars_at(s, i, p),
        i + p.len() <= n,
{
    assert(s.take(n).subrange(i, i + p.len()) =~= s.subrange(i, i + p.len()));
}

/// No occurrence of `p` in `x + t` starts inside `x` when `x` has none and the first
/// character of `t` occurs in `p` at most at its first position.
proof fn lemma_none_before(x: Seq<char>, t: Seq<char>, p: Seq<char>, j: int)
    requires
        p.len() > 0,
        t.len() > 0,
        0 <= j < x.len(),
        forall|i: int| !#[trigger] chars_at(x, i, p),
        forall|k: int| 1 <= k < p.len() ==> p[k] != t[0],
    ensures
        !chars_at(x + t, j, p),
{
    if chars_at(x + t, j, p) {
        if j + p.len() <= x.len() {
            assert((x + t).subrange(j, j + p.len()) =~= x.subrange(j, j + p.len()));
            assert(chars_at(x, j, p));
        } else {
            let k = x.len() - j;
            assert((x + t).subrange(j, j + p.len())[k] == t[0]);
        }
    }
}

/// Inside the managed block, the closing marker occurs only at its end.
proof fn lemma_block_end_only(content: Seq<char>, m: int)
    requires
        !has_sub(trimmed(content), end_marker()),
        0 <= m < marker_block(content).len() - end_marker().len(),
    ensures
        !chars_at(marker_block(content), m, end_marker()),
{
    lemma_marker_chars();
    let b = begin_marker();
    let e = end_marker();
    let c = trimmed(content);
    let k = marker_block(content);
    assert(k.len() == b.len() + 1 + c.len() + 1 + e.len());
    if chars_at(k, m, e) {
        let w = k.subrange(m, m + e.len());
        assert(w == e);
        if m == 0 {
            assert(w[5] == b[5]);
        } else if m < b.len() {
            assert(w[0] == b[m]);
        } else if m == b.len() {
            assert(w[0] == '\n');
        } else if m < b.len() + 1 + c.len() {
            let ci = m - b.len() - 1;
            if m + e.len() <= b.len() + 1 + c.len() {
                assert(c.subrange(ci, ci + e.len()) =~= w);
                assert(chars_at(c, ci, e));
            } else {
                let t = b.len() + 1 + c.len() - m;
                assert(w[t] == '\n');
            }
        } else {
            assert(w[0] == '\n');
        }
    }
}

/// The managed block stands between `x` and `y`, and `x` holds neither marker: in
/// `x + block + y` the first opening marker starts the block and the first closing
/// marker ends it.
proof fn lemma_block_found(x: Seq<char>, y: Seq<char>, content: Seq<char>)
    requires
        !has_sub(trimmed(content), end_marker()),
        forall|i: int| !#[trigger] chars_at(x, i, begin_marker()),
        forall|i: int| !#[trigger] chars_at(x, i, end_marker()),
    ensures
        find_sub_from(x + marker_block(content) + y, begin_marker(), 0) == Some(x.len() as int),
        find_sub_from(x + marker_block(content) + y, end_marker(), 0) == Some(
            x.len() + marker_block(content).len() - end_marker().len(),
        ),
{
    lemma_marker_chars();
    let b = begin_marker();
    let e = end_marker();
    let k = marker_block(content);
    let r = x + k + y;
    let t = k + y;
    assert(r =~= x + t);
    assert(t[0] == '<');
    assert(r.subrange(x.len() as int, (x.len() + b.len()) as int) =~= b);
    assert forall|j: int| 0 <= j < x.len() implies !#[trigger] chars_at(r, j, b) by {
        lemma_none_before(x, t, b, j);
    }
    lemma_find_at(r, b, x.len() as int);
    let e2 = x.len() + k.len() - e.len();
    assert(r.subrange(e2, e2 + e.len()) =~= e);
    assert forall|j: int| 0 <= j < e2 implies !#[trigger] chars_at(r, j, e) by {
        if j < x.len() {
            lemma_none_before(x, t, e, j);
        } else if chars_at(r, j, e) {
            assert(r.subrange(j, j + e.len()) =~= k.subrange(j - x.len(), j - x.len() + e.len()));
            assert(chars_at(k, j - x.len(), e));
            lemma_block_end_only(content, j - x.len());
        }
    }
    lemma_find_at(r, e, e2);
}

/// Installing the managed block a second time with the same rules leaves the file as the
/// first installation made it, and the second installation is one the setup can make
/// (its markers stand in order). This holds when the rules text holds neither marker and
/// the file's markers are in order (an opening marker before the first closing one, or
/// no closing marker).
pub proof fn lemma_marker_block_idempotent(file: Seq<char>, content: Seq<char>)
    requires
        !has_sub(trimmed(content), begin_marker()),
        !has_sub(trimmed(content), end_marker()),
        markers_in_order(file),
    ensures
        marker_order_ok(with_marker_block(file, content)),
        with_marker_block(with_marker_block(file, content), content) == with_marker_block(
            file,
            content,
        ),
{
    lemma_marker_chars();
    let b = begin_marker();
    let e = end_marker();
    let k = marker_block(content);
    lemma_find_first(file, b, 0);
    lemma_find_first(file, e, 0);
    match (find_sub_from(file, b, 0), find_sub_from(file, e, 0)) {
        (Some(s), Some(f)) => {
            let x = file.take(s);
            let y = file.skip(f + e.len());
            assert forall|i: int| !#[trigger] chars_at(x, i, b) by {
                if chars_at(x, i, b) {
                    lemma_prefix_occurrence(file, s, b, i);
                }
            }
            assert forall|i: int| !#[trigger] chars_at(x, i, e) by {
                if chars_at(x, i, e) {
                    lemma_prefix_occurrence(file, s, e, i);
                }
            }
            lemma_block_found(x, y, content);
            let r = x + k + y;
            assert(with_marker_block(file, content) == r);
            assert(r.take(s) =~= x);
            assert(r.skip((x.len() + k.len()) as int) =~= y);
            assert(r.take(s) + k + r.skip(x.len() + k.len() - e.len() + e.len()) =~= r);
        },
        (Some(s), None) => {},
        (None, Some(_)) => {},
        (None, None) => {
            let sep: Seq<char> = if file.len() > 0 && file.last() != '\n' {
                seq!['\n']
            } else {
                Seq::empty()
            };
            let x = file + sep;
            let y = seq!['\n'];
            assert forall|i: int| !#[trigger] chars_at(x, i, b) by {
                if chars_at(x, i, b) {
                    if i < file.len() {
                        lemma_none_before(file, sep + k, b, i);
                        assert(x + k =~= file + (sep + k));
                        assert(x.subrange(i, i + b.len()) =~= (x + k).subrange(i, i + b.len()));
                    } else {
                        assert(x.subrange(i, i + b.len())[0] == '\n');
                    }
                }
            }
            assert forall|i: int| !#[trigger] chars_at(x, i, e) by {
                if chars_at(x, i, e) {
                    if i < file.len() {
                        lemma_none_before(file, sep + k, e, i);
                        assert(x + k =~= file + (sep + k));
                        assert(x.subrange(i, i + e.len()) =~= (x + k).subrange(i, i + e.len()));
                    } else {
                        assert(x.subrange(i, i + e.len())[0] == '\n');
                    }
                }
            }
            lemma_block_found(x, y, content);
            let r = x + k + y;
            assert(with_marker_block(file, content) =~= r);
            assert(r.take(x.len() as int) =~= x);
            assert(r.skip((x.len() + k.len()) as int) =~= y);
        },
    }
}

} // verus!
