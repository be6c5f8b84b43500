//! The shell and file-reading tools: what a call asks for, and the answer for each outcome.

use vstd::prelude::*;
use crate::json::{get_string, get_u64, json_get, json_str, json_u64, members_view, object_of, push_member, Json, JsonView};
use crate::rule::{copy_string, push, text_of};
use crate::text::{chars_of, join_lines, lines_of, string_of, texts_of, trim, u64_to_string, decimal};

verus! {

// ---------------------------------------------------------------------------
// The shell tool
// ---------------------------------------------------------------------------

/// The shell tool: runs a command with `bash -c`.
#[derive(Debug)]
pub struct BashTool;

/// A command to run: the command line, its working directory, its environment, and how long
/// it may take in seconds.
#[derive(Debug)]
pub struct BashRequest {
    pub cmd: String,
    pub workdir: Option<String>,
    pub env: Vec<(String, String)>,
    pub timeout_secs: u64,
}

/// The string-valued members of an `env` object, in order.
pub open spec fn env_of(members: Seq<(Seq<char>, JsonView)>) -> Seq<(Seq<char>, Seq<char>)>
    decreases members.len(),
{
    if members.len() == 0 {
        Seq::empty()
    } else {
        let p = env_of(members.drop_last());
        match members.last().1 {
            JsonView::Str(v) => p.push((members.last().0, v)),
            _ => p,
        }
    }
}

/// The environment a call sets: the string members of its `env` object (none without one).
pub open spec fn call_env_of(input: JsonView) -> Seq<(Seq<char>, Seq<char>)> {
    match json_get(input, "env"@) {
        Some(JsonView::Object(m)) => env_of(m),
        _ => Seq::empty(),
    }
}

/// The views of environment entries.
pub open spec fn env_view(v: Seq<(String, String)>) -> Seq<(Seq<char>, Seq<char>)> {
    v.map_values(|e: (String, String)| (e.0@, e.1@))
}

impl BashTool {
    /// The command a call asks for: `cmd` is needed; `workdir` and the string members of `env`
    /// are taken when given; `timeout` defaults to sixty seconds.
    pub fn request(input: &Json) -> (r: Result<BashRequest, String>)
        ensures
            match r {
                Ok(q) => json_str(json_get(input@, "cmd"@)) == Some(q.cmd@)
                    && crate::engine::opt_text_of(q.workdir) == json_str(json_get(input@, "workdir"@))
                    && env_view(q.env@) == call_env_of(input@)
                    && q.timeout_secs == match json_u64(json_get(input@, "timeout"@)) {
                        Some(t) => t,
                        None => 60u64,
                    },
                Err(e) => json_str(json_get(input@, "cmd"@)) is None && e@ == "command is required"@,
            },
    {
        let cmd = match get_string(input, "cmd") {
            Some(c) => c,
            None => return Err(text_of("command is required")),
        };
        let workdir = get_string(input, "workdir");
        let mut env: Vec<(String, String)> = Vec::new();
        proof {
            assert(env_view(env@) =~= Seq::<(Seq<char>, Seq<char>)>::empty());
        }
        match input.get("env") {
            Some(e) => {
                proof {
                    reveal_with_fuel(crate::json::json_view, 2);
                }
                match e {
                    Json::Object(m) => {
                        let ghost mv = members_view(m@);
                        proof {
                            crate::json::lemma_members_view_index(m@);
                            assert(mv.take(0) =~= Seq::<(Seq<char>, JsonView)>::empty());
                        }
                        let mut i: usize = 0;
                        while i < m.len()
                            invariant
                                i <= m@.len(),
                                mv == members_view(m@),
                                mv.len() == m@.len(),
                                forall|k: int| 0 <= k < m@.len() ==> #[trigger] mv[k] == (m@[k].0@, m@[k].1@),
                                env_view(env@) == env_of(mv.take(i as int)),
                            decreases m.len() - i,
                        {
                            proof {
                                let u = mv.take(i + 1);
                                assert(u.drop_last() =~= mv.take(i as int));
                                assert(u.last() == mv[i as int]);
                            }
                            match m[i].1.as_str() {
                                Some(v) => {
                                    let ghost prev = env@;
                                    env.push((copy_string(&m[i].0), text_of(v)));
                                    proof {
                                        assert(env_view(env@) =~= env_view(prev).push((m@[i as int].0@, v@)));
                                    }
                                },
                                None => {},
                            }
                            i = i + 1;
                        }
                        proof {
                            assert(mv.take(i as int) =~= mv);
                        }
                    },
                    _ => {},
                }
            },
            None => {},
        }
        let timeout_secs = match get_u64(input, "timeout") {
            Some(t) => t,
            None => 60,
        };
        Ok(BashRequest { cmd, workdir, env, timeout_secs })
    }
}

/// How running a command went.
#[derive(Debug)]
pub enum BashRun {
    /// It ran to its end; its output (standard output, then standard error).
    Finished(String),
    /// Waiting for it failed, with this error.
    WaitFailed(String),
    /// It did not end in time.
    TimedOut,
    /// It could not be started, with this error.
    SpawnFailed(String),
}

/// The mathematical value of a run.
pub enum RunView {
    Finished(Seq<char>),
    WaitFailed(Seq<char>),
    TimedOut,
    SpawnFailed(Seq<char>),
}

impl View for BashRun {
    type V = RunView;

    open spec fn view(&self) -> RunView {
        match self {
            BashRun::Finished(o) => RunView::Finished(o@),
            BashRun::WaitFailed(e) => RunView::WaitFailed(e@),
            BashRun::TimedOut => RunView::TimedOut,
            BashRun::SpawnFailed(e) => RunView::SpawnFailed(e@),
        }
    }
}

/// The answer to a run: the trimmed output, or the error.
pub open spec fn bash_answer_of(run: RunView, timeout_secs: u64) -> Result<Seq<char>, Seq<char>> {
    match run {
        RunView::Finished(o) => Ok(trim(o)),
        RunView::WaitFailed(e) => Err("Command execution failed: "@ + e),
        RunView::TimedOut => Err("Command execution timed out ("@ + decimal(timeout_secs as nat) + " seconds)"@),
        RunView::SpawnFailed(e) => Err("Failed to start command: "@ + e),
    }
}

impl BashTool {
    /// The answer to a run (see `bash_answer_of`).
    pub fn answer(run: &BashRun, timeout_secs: u64) -> (r: Result<String, String>)
        ensures
            match r {
                Ok(t) => bash_answer_of(run@, timeout_secs) == Ok::<Seq<char>, Seq<char>>(t@),
                Err(e) => bash_answer_of(run@, timeout_secs) == Err::<Seq<char>, Seq<char>>(e@),
            },
    {
        match run {
            BashRun::Finished(o) => Ok(crate::text::trim_str(o.as_str())),
            BashRun::WaitFailed(e) => {
                let mut t = text_of("Command execution failed: ");
                push(&mut t, e.as_str());
                Err(t)
            },
            BashRun::TimedOut => {
                let mut t = text_of("Command execution timed out (");
                push(&mut t, u64_to_string(timeout_secs).as_str());
                push(&mut t, " seconds)");
                Err(t)
            },
            BashRun::SpawnFailed(e) => {
                let mut t = text_of("Failed to start command: ");
                push(&mut t, e.as_str());
                Err(t)
            },
        }
    }
}

// ---------------------------------------------------------------------------
// The file-reading tool
// ---------------------------------------------------------------------------

/// The file-reading tool.
#[derive(Debug)]
pub struct FileReadTool;

/// A read to make: the file, the first line, and how many lines at most.
#[derive(Debug)]
pub struct FileReadRequest {
    pub file_path: String,
    pub offset: u64,
    pub limit: Option<u64>,
}

/// The extensions of image files (as written, with their dot).
pub open spec fn image_extensions() -> Seq<Seq<char>> {
    seq![".png"@, ".jpg"@, ".jpeg"@, ".gif"@, ".bmp"@, ".tiff"@, ".svg"@, ".webp"@]
}

/// The text of the part of a file that is read.
#[derive(Debug)]
pub struct TextData {
    pub file_path: String,
    pub content: String,
    pub line_count: usize,
    pub start_line: usize,
    pub total_lines: usize,
}

/// How many lines a read takes when the call gives no limit.
pub const MAX_LINES_TO_READ: u64 = 2000;

/// How many characters of a line a read keeps; the rest of a longer line is cut off.
pub const MAX_LINE_LENGTH: usize = 2000;

/// A line as a read gives it: cut to `MAX_LINE_LENGTH` characters.
pub open spec fn clip_line(l: Seq<char>) -> Seq<char> {
    if l.len() > MAX_LINE_LENGTH { l.take(MAX_LINE_LENGTH as int) } else { l }
}

/// How many lines a read takes at most: the limit given, else `MAX_LINES_TO_READ`.
pub open spec fn limit_or_default(limit: Option<u64>) -> nat {
    match limit {
        Some(x) => x as nat,
        None => MAX_LINES_TO_READ as nat,
    }
}

/// The first line read: the offset, or the end when the offset is past it.
pub open spec fn start_of(total: nat, offset: nat) -> nat {
    if offset < total { offset } else { total }
}

/// The line after the last one read: `offset + limit`, or the end when that is past it.
pub open spec fn end_of(total: nat, offset: nat, limit: nat) -> nat {
    if offset + limit < total { offset + limit } else { total }
}

/// Whether the offset and the number of lines to take fit a `usize`.
pub open spec fn read_fits(offset: u64, limit: Option<u64>) -> bool {
    offset <= usize::MAX && limit_or_default(limit) <= usize::MAX
}

/// Cuts a line to `MAX_LINE_LENGTH` characters.
fn clip(line: &String) -> (r: String)
    ensures
        r@ == clip_line(line@),
{
    let cs = chars_of(line.as_str());
    if cs.len() <= MAX_LINE_LENGTH {
        return copy_string(line);
    }
    let mut kept: Vec<char> = Vec::new();
    let mut i: usize = 0;
    while i < MAX_LINE_LENGTH
        invariant
            i <= MAX_LINE_LENGTH < cs@.len(),
            cs@ == line@,
            kept@ == cs@.take(i as int),
        decreases MAX_LINE_LENGTH - i,
    {
        kept.push(cs[i]);
        proof {
            assert(kept@ =~= cs@.take(i + 1));
        }
        i = i + 1;
    }
    string_of(kept.as_slice())
}

impl FileReadTool {
    /// The read a call asks for: `file_path` is needed (the error quotes the input's text);
    /// `offset` defaults to zero; `limit` is taken when it is a non-negative integer.
    pub fn request(input: &Json, input_text: &str) -> (r: Result<FileReadRequest, String>)
        ensures
            match r {
                Ok(q) => json_str(json_get(input@, "file_path"@)) == Some(q.file_path@)
                    && q.offset == match json_u64(json_get(input@, "offset"@)) {
                        Some(o) => o,
                        None => 0u64,
                    } && q.limit == json_u64(json_get(input@, "limit"@)),
                Err(e) => json_str(json_get(input@, "file_path"@)) is None
                    && e@ == "missing or non-string file path "@ + input_text@,
            },
    {
        let file_path = match get_string(input, "file_path") {
            Some(p) => p,
            None => {
                let mut t = text_of("missing or non-string file path ");
                push(&mut t, input_text);
                return Err(t);
            },
        };
        let offset = match get_u64(input, "offset") {
            Some(o) => o,
            None => 0,
        };
        let limit = get_u64(input, "limit");
        Ok(FileReadRequest { file_path, offset, limit })
    }

    /// Whether a (lowercased) extension is one of the image extensions.
    pub fn is_image(ext: &str) -> (b: bool)
        ensures
            b == image_extensions().contains(ext@),
    {
        let exts: Vec<&str> = vec![".png", ".jpg", ".jpeg", ".gif", ".bmp", ".tiff", ".svg", ".webp"];
        proof {
            assert(exts@.len() == 8);
            assert forall|k: int| 0 <= k < 8 implies #[trigger] exts@[k]@ == image_extensions()[k] by {}
        }
        let mut i: usize = 0;
        while i < exts.len()
            invariant
                i <= 8,
                exts@.len() == 8,
                forall|k: int| 0 <= k < 8 ==> #[trigger] exts@[k]@ == image_extensions()[k],
                forall|k: int| 0 <= k < i ==> image_extensions()[k] != ext@,
            decreases 8 - i,
        {
            if crate::text::str_eq(exts[i], ext) {
                proof {
                    assert(image_extensions()[i as int] == ext@);
                }
                return true;
            }
            i = i + 1;
        }
        false
    }

    /// The lines `offset..offset + limit` of a file's text (see `start_of`, `end_of`; without a
    /// limit `MAX_LINES_TO_READ` lines), each cut to `MAX_LINE_LENGTH` characters and joined
    /// with `\n`, with their count, where they start, and the file's line count.
    pub fn read_text_content(file_path: &str, content: &str, offset: u64, limit: Option<u64>) -> (r: TextData)
        requires
            read_fits(offset, limit),
        ensures
            ({
                let ls = lines_of(content@);
                let s = start_of(ls.len(), offset as nat);
                let e = end_of(ls.len(), offset as nat, limit_or_default(limit));
                &&& r.file_path@ == file_path@
                &&& r.content@ == join_lines(ls.subrange(s as int, e as int).map_values(|l: Seq<char>| clip_line(l)))
                &&& r.line_count == e - s
                &&& r.start_line == s
                &&& r.total_lines == ls.len()
            }),
    {
        let lines = crate::text::text_lines(content);
        let ghost lv = lines_of(content@);
        proof {
            assert(texts_of(lines@).len() == lines@.len());
        }
        let total = lines.len();
        let off = offset as usize;
        let lim: usize = match limit {
            Some(l) => l as usize,
            None => MAX_LINES_TO_READ as usize,
        };
        let start = if off < total { off } else { total };
        let end = if off < total && lim < total - off { off + lim } else { total };
        let mut sel: Vec<String> = Vec::new();
        let mut i: usize = start;
        proof {
            assert(texts_of(sel@) =~= lv.subrange(start as int, start as int).map_values(|l: Seq<char>| clip_line(l)));
        }
        while i < end
            invariant
                start <= i <= end <= total,
                total == lines@.len(),
                texts_of(lines@) == lv,
                texts_of(sel@) =~= lv.subrange(start as int, i as int).map_values(|l: Seq<char>| clip_line(l)),
            decreases end - i,
        {
            let ghost prev = sel@;
            sel.push(clip(&lines[i]));
            proof {
                assert(lv[i as int] == lines@[i as int]@);
                assert(texts_of(sel@) =~= texts_of(prev).push(clip_line(lv[i as int])));
                assert(lv.subrange(start as int, i + 1) =~= lv.subrange(start as int, i as int).push(lv[i as int]));
                assert(lv.subrange(start as int, i + 1).map_values(|l: Seq<char>| clip_line(l))
                    =~= lv.subrange(start as int, i as int).map_values(|l: Seq<char>| clip_line(l)).push(clip_line(lv[i as int])));
            }
            i = i + 1;
        }
        let joined = crate::text::join_lines_from(&sel, 0);
        proof {
            assert(texts_of(sel@).skip(0) =~= texts_of(sel@));
        }
        TextData { file_path: text_of(file_path), content: joined, line_count: end - start, start_line: start, total_lines: total }
    }

    /// The answer document of a read: its kind, file, text and line numbers.
    pub fn text_document(d: &TextData) -> (r: Json)
        ensures
            r@ == JsonView::Object(seq![
                ("type"@, JsonView::Str("text"@)),
                ("file_path"@, JsonView::Str(d.file_path@)),
                ("content"@, JsonView::Str(d.content@)),
                ("line_count"@, JsonView::PosInt(d.line_count as u64)),
                ("start_line"@, JsonView::PosInt(d.start_line as u64)),
                ("total_lines"@, JsonView::PosInt(d.total_lines as u64)),
            ]),
    {
        let mut m: Vec<(String, Json)> = Vec::new();
        proof {
            assert(members_view(m@) =~= Seq::empty());
        }
        push_member(&mut m, "type", Json::Str(text_of("text")));
        push_member(&mut m, "file_path", Json::Str(copy_string(&d.file_path)));
        push_member(&mut m, "content", Json::Str(copy_string(&d.content)));
        push_member(&mut m, "line_count", Json::PosInt(d.line_count as u64));
        push_member(&mut m, "start_line", Json::PosInt(d.start_line as u64));
        push_member(&mut m, "total_lines", Json::PosInt(d.total_lines as u64));
        proof {
            assert(members_view(m@) =~= seq![
                ("type"@, JsonView::Str("text"@)),
                ("file_path"@, JsonView::Str(d.file_path@)),
                ("content"@, JsonView::Str(d.content@)),
                ("line_count"@, JsonView::PosInt(d.line_count as u64)),
                ("start_line"@, JsonView::PosInt(d.start_line as u64)),
                ("total_lines"@, JsonView::PosInt(d.total_lines as u64)),
            ]);
        }
        object_of(m)
    }
}

} // verus!
