//! The project tool: tool names, the build command it runs, and its edits of a project's
//! `Cargo.toml` and `main.rs`.

use vstd::prelude::*;
use crate::rule::{copy_string, push, text_of};
use crate::text::{
    chars_of, contains_seq, contains_text, find_seq, find_text, replace_chars, replace_seq, str_eq, string_of,
    texts_of, trim,
};

verus! {

// ---------------------------------------------------------------------------
// Tool names
// ---------------------------------------------------------------------------

/// An ASCII capital letter.
pub open spec fn is_ascii_upper(c: char) -> bool {
    'A' <= c && c <= 'Z'
}

/// An ASCII letter or digit.
pub open spec fn is_ascii_alnum(c: char) -> bool {
    ('A' <= c && c <= 'Z') || ('a' <= c && c <= 'z') || ('0' <= c && c <= '9')
}

/// Whether a tool name is UpperCamelCase: it starts with a capital letter and holds only ASCII
/// letters and digits.
pub open spec fn upper_camel(s: Seq<char>) -> bool {
    s.len() > 0 && is_ascii_upper(s[0]) && forall|i: int| 0 <= i < s.len() ==> #[trigger] is_ascii_alnum(s[i])
}

/// Whether a tool name is UpperCamelCase (see `upper_camel`).
pub fn is_upper_camel_case(s: &str) -> (b: bool)
    ensures
        b == upper_camel(s@),
{
    let cs = chars_of(s);
    if cs.len() == 0 || !('A' <= cs[0] && cs[0] <= 'Z') {
        return false;
    }
    let mut i: usize = 0;
    while i < cs.len()
        invariant
            i <= cs@.len(),
            cs@ == s@,
            forall|j: int| 0 <= j < i ==> #[trigger] is_ascii_alnum(cs@[j]),
        decreases cs.len() - i,
    {
        let c = cs[i];
        if !(('A' <= c && c <= 'Z') || ('a' <= c && c <= 'z') || ('0' <= c && c <= '9')) {
            proof {
                assert(!is_ascii_alnum(s@[i as int]));
            }
            return false;
        }
        i = i + 1;
    }
    true
}

/// std's `char::to_ascii_lowercase`.
pub open spec fn ascii_lower(c: char) -> char {
    if is_ascii_upper(c) { ((c as u32) + 32) as char } else { c }
}

/// The snake_case name of a tool: a `_` before every capital but the first character, and
/// every capital made small.
pub open spec fn snake_of(s: Seq<char>) -> Seq<char>
    decreases s.len(),
{
    if s.len() == 0 {
        Seq::empty()
    } else {
        snake_of(s.drop_last()) + (if s.len() > 1 && is_ascii_upper(s.last()) { seq!['_'] } else { Seq::empty() })
            + seq![ascii_lower(s.last())]
    }
}

fn lower_char(c: char) -> (r: char)
    ensures
        r == ascii_lower(c),
{
    if 'A' <= c && c <= 'Z' {
        let u = (c as u32) + 32;
        proof {
            assert(0x61 <= u <= 0x7a);
        }
        char_of(u)
    } else {
        c
    }
}

/// The character with an ASCII code.
fn char_of(u: u32) -> (c: char)
    requires
        u < 128,
    ensures
        c == u as char,
{
    let b = u as u8;
    b as char
}

/// The snake_case name of a tool (see `snake_of`).
pub fn to_snake_case(s: &str) -> (r: String)
    ensures
        r@ == snake_of(s@),
{
    let cs = chars_of(s);
    let mut out: Vec<char> = Vec::new();
    let mut i: usize = 0;
    proof {
        assert(cs@.take(0) =~= Seq::<char>::empty());
    }
    while i < cs.len()
        invariant
            i <= cs@.len(),
            cs@ == s@,
            out@ == snake_of(cs@.take(i as int)),
        decreases cs.len() - i,
    {
        let c = cs[i];
        proof {
            let t = cs@.take(i + 1);
            assert(t.drop_last() =~= cs@.take(i as int));
            assert(t.last() == c);
        }
        let ghost before = out@;
        if i > 0 && 'A' <= c && c <= 'Z' {
            out.push('_');
        }
        out.push(lower_char(c));
        proof {
            let t = cs@.take(i + 1);
            assert(out@ =~= before + (if t.len() > 1 && is_ascii_upper(t.last()) { seq!['_'] } else { Seq::empty() })
                + seq![ascii_lower(t.last())]);
        }
        i = i + 1;
    }
    proof {
        assert(cs@.take(i as int) =~= cs@);
    }
    string_of(out.as_slice())
}

// ---------------------------------------------------------------------------
// The build command
// ---------------------------------------------------------------------------

/// The build the project tool runs: with `cross` when a target is given, else with `cargo`.
#[derive(Debug)]
pub struct BuildPlan {
    /// `cross` or `cargo`.
    pub program: String,
    /// `build` and then the arguments given, unchanged.
    pub args: Vec<String>,
    /// Whether a Debian package is made after (`--release` was given).
    pub release: bool,
    /// The target the package is made for.
    pub deb_target: Option<String>,
}

/// Whether an argument names a target inline.
pub open spec fn target_inline(a: Seq<char>) -> bool {
    a.len() >= 9 && a.take(9) == "--target="@
}

/// Whether the arguments from `i` on, reading `--target` as taking the next one as its value,
/// give a target (and, in `.1`, ask for a release build).
pub open spec fn scan_build_args(args: Seq<Seq<char>>, i: nat) -> (bool, bool)
    decreases args.len() - i,
{
    if i >= args.len() {
        (false, false)
    } else {
        let a = args[i as int];
        if a == "--target"@ {
            if i + 1 < args.len() { (true, scan_build_args(args, i + 2).1) } else { (true, false) }
        } else if target_inline(a) {
            let rest = scan_build_args(args, i + 1);
            (true, rest.1)
        } else if a == "--release"@ {
            let rest = scan_build_args(args, i + 1);
            (rest.0, true)
        } else {
            scan_build_args(args, i + 1)
        }
    }
}

/// The target the package is made for: the value after the first `--target` (none when it is
/// last), or the text after the first `--target=`, whichever comes first.
pub open spec fn deb_target_of(args: Seq<Seq<char>>, i: nat) -> Option<Seq<char>>
    decreases args.len() - i,
{
    if i >= args.len() {
        None
    } else if args[i as int] == "--target"@ {
        if i + 1 < args.len() { Some(args[i + 1 as int]) } else { None }
    } else if target_inline(args[i as int]) {
        Some(args[i as int].skip(9))
    } else {
        deb_target_of(args, i + 1)
    }
}

/// The build of a project for the given arguments.
pub open spec fn build_plan_of(args: Seq<Seq<char>>) -> (Seq<char>, Seq<Seq<char>>, bool, Option<Seq<char>>) {
    let (cross, release) = scan_build_args(args, 0);
    (if cross { "cross"@ } else { "cargo"@ }, seq!["build"@] + args, release, if release {
        deb_target_of(args, 0)
    } else {
        None
    })
}

fn is_inline_target(a: &str) -> (b: bool)
    ensures
        b == target_inline(a@),
{
    let cs = chars_of(a);
    if cs.len() < 9 {
        return false;
    }
    let mut pre: Vec<char> = Vec::new();
    let mut i: usize = 0;
    while i < 9
        invariant
            i <= 9,
            cs@.len() >= 9,
            pre@ == cs@.take(i as int),
        decreases 9 - i,
    {
        pre.push(cs[i]);
        proof {
            assert(cs@.take(i + 1) =~= cs@.take(i as int).push(cs@[i as int]));
        }
        i = i + 1;
    }
    let p = string_of(pre.as_slice());
    str_eq(p.as_str(), "--target=")
}

fn after_inline_target(a: &str) -> (r: String)
    requires
        target_inline(a@),
    ensures
        r@ == a@.skip(9),
{
    let cs = chars_of(a);
    let mut out: Vec<char> = Vec::new();
    let mut i: usize = 9;
    while i < cs.len()
        invariant
            9 <= i <= cs@.len(),
            out@ == cs@.subrange(9, i as int),
        decreases cs.len() - i,
    {
        out.push(cs[i]);
        proof {
            assert(cs@.subrange(9, i + 1) =~= cs@.subrange(9, i as int).push(cs@[i as int]));
        }
        i = i + 1;
    }
    proof {
        assert(out@ =~= cs@.skip(9));
    }
    string_of(out.as_slice())
}

/// The build of a project for the given arguments (see `build_plan_of`).
pub fn build_plan(args: &Vec<String>) -> (r: BuildPlan)
    ensures
        (r.program@, texts_of(r.args@), r.release, match r.deb_target {
            Some(t) => Some(t@),
            None => None,
        }) == build_plan_of(texts_of(args@)),
{
    proof {
        reveal_strlit("--target");
        reveal_strlit("--release");
    }
    let ghost av = texts_of(args@);
    let n = args.len();
    let mut cross = false;
    let mut release = false;
    let mut all: Vec<String> = Vec::new();
    all.push(text_of("build"));
    let mut i: usize = 0;
    proof {
        assert(texts_of(all@) =~= seq!["build"@] + av.take(0));
    }
    while i < n
        invariant
            n == args@.len(),
            av == texts_of(args@),
            i <= n,
            texts_of(all@) =~= seq!["build"@] + av.take(i as int),
            ({
                let s = scan_build_args(av, 0);
                let t = scan_build_args(av, i as nat);
                s.0 == (cross || t.0) && s.1 == (release || t.1)
            }),
        decreases n - i,
    {
        let a = args[i].as_str();
        proof {
            assert(av[i as int] == a@);
        }
        let ghost prev = all@;
        all.push(copy_string(&args[i]));
        proof {
            assert(av.take(i + 1) =~= av.take(i as int).push(av[i as int]));
            assert(texts_of(all@) =~= texts_of(prev).push(a@));
        }
        if str_eq(a, "--target") {
            cross = true;
            if i + 1 < n {
                let ghost prev2 = all@;
                all.push(copy_string(&args[i + 1]));
                proof {
                    assert(av.take(i + 2) =~= av.take(i + 1).push(av[i + 1]));
                    assert(texts_of(all@) =~= texts_of(prev2).push(av[i + 1]));
                }
                i = i + 2;
            } else {
                i = i + 1;
            }
        } else if is_inline_target(a) {
            cross = true;
            i = i + 1;
        } else if str_eq(a, "--release") {
            release = true;
            i = i + 1;
        } else {
            i = i + 1;
        }
    }
    proof {
        assert(av.take(n as int) =~= av);
    }
    let deb_target = if release { target_value(args) } else { None };
    BuildPlan { program: if cross { text_of("cross") } else { text_of("cargo") }, args: all, release, deb_target }
}

fn target_value(args: &Vec<String>) -> (r: Option<String>)
    ensures
        match r {
            Some(t) => deb_target_of(texts_of(args@), 0) == Some(t@),
            None => deb_target_of(texts_of(args@), 0) is None,
        },
{
    proof {
        reveal_strlit("--target");
    }
    let ghost av = texts_of(args@);
    let mut i: usize = 0;
    while i < args.len()
        invariant
            i <= args@.len(),
            av == texts_of(args@),
            deb_target_of(av, 0) == deb_target_of(av, i as nat),
        decreases args.len() - i,
    {
        let a = args[i].as_str();
        proof {
            assert(av[i as int] == a@);
        }
        if str_eq(a, "--target") {
            if i + 1 < args.len() {
                proof {
                    assert(av[i + 1] == args@[i + 1]@);
                }
                return Some(copy_string(&args[i + 1]));
            }
            return None;
        } else if is_inline_target(a) {
            return Some(after_inline_target(a));
        }
        i = i + 1;
    }
    None
}

// ---------------------------------------------------------------------------
// Adding and removing a tool
// ---------------------------------------------------------------------------

/// The dependency line of a tool in an agent's `Cargo.toml`.
pub open spec fn dep_line_of(snake: Seq<char>) -> Seq<char> {
    snake + " = { path = \"../tools/"@ + snake + "\" }\n"@
}

/// The import line of a tool in an agent's `main.rs`.
pub open spec fn import_line_of(snake: Seq<char>, name: Seq<char>) -> Seq<char> {
    "use "@ + snake + "::"@ + name + ";\n"@
}

/// The registration line of a tool in an agent's `main.rs`.
pub open spec fn register_line_of(name: Seq<char>) -> Seq<char> {
    "    app.add_tools("@ + name + ");\n"@
}

/// Text with `x` put in at position `p`.
pub open spec fn insert_at(s: Seq<char>, p: int, x: Seq<char>) -> Seq<char> {
    s.take(p) + x + s.skip(p)
}

/// The manifest with a tool's dependency: unchanged when the line is there; else the line goes
/// right after the first `[dependencies]` line (one that follows a new line first), or, with no
/// such section, a new section with the line is appended.
pub open spec fn with_dependency(toml: Seq<char>, line: Seq<char>) -> Seq<char> {
    if contains_seq(toml, line) {
        toml
    } else {
        match find_seq(toml, "\n[dependencies]\n"@) {
            Some(p) => insert_at(toml, p + 16, line),
            None => match find_seq(toml, "[dependencies]\n"@) {
                Some(p) => insert_at(toml, p + 15, line),
                None => toml + "\n[dependencies]\n"@ + line,
            },
        }
    }
}

/// `main.rs` with a tool imported and registered: the import goes after `use app::App;` and the
/// registration before `    app.run()`, each only when it is not there yet and its anchor is.
pub open spec fn with_tool_registered(main_rs: Seq<char>, snake: Seq<char>, name: Seq<char>) -> Seq<char> {
    let imp = import_line_of(snake, name);
    let m1 = if contains_seq(main_rs, imp) {
        main_rs
    } else {
        match find_seq(main_rs, "use app::App;"@) {
            Some(p) => insert_at(main_rs, p + 13, "\n"@ + crate::text::trim_end(imp)),
            None => main_rs,
        }
    };
    let reg = register_line_of(name);
    if contains_seq(m1, trim(reg)) {
        m1
    } else {
        match find_seq(m1, "    app.run()"@) {
            Some(p) => insert_at(m1, p, reg),
            None => m1,
        }
    }
}

/// `s` with `x` put in at position `p`.
fn insert_text(s: &str, p: usize, x: &str) -> (r: String)
    requires
        p <= s@.len(),
    ensures
        r@ == insert_at(s@, p as int, x@),
{
    let cs = chars_of(s);
    let mut out: Vec<char> = Vec::new();
    let mut i: usize = 0;
    while i < p
        invariant
            i <= p <= cs@.len(),
            out@ == cs@.take(i as int),
        decreases p - i,
    {
        out.push(cs[i]);
        proof {
            assert(cs@.take(i + 1) =~= cs@.take(i as int).push(cs@[i as int]));
        }
        i = i + 1;
    }
    let mut t = string_of(out.as_slice());
    push(&mut t, x);
    let mut rest: Vec<char> = Vec::new();
    let mut k: usize = p;
    while k < cs.len()
        invariant
            p <= k <= cs@.len(),
            rest@ == cs@.subrange(p as int, k as int),
        decreases cs.len() - k,
    {
        rest.push(cs[k]);
        proof {
            assert(cs@.subrange(p as int, k + 1) =~= cs@.subrange(p as int, k as int).push(cs@[k as int]));
        }
        k = k + 1;
    }
    proof {
        assert(rest@ =~= cs@.skip(p as int));
    }
    push(&mut t, string_of(rest.as_slice()).as_str());
    t
}

/// The dependency line of a tool.
pub fn dep_line(snake: &str) -> (r: String)
    ensures
        r@ == dep_line_of(snake@),
{
    let mut t = text_of(snake);
    push(&mut t, " = { path = \"../tools/");
    push(&mut t, snake);
    push(&mut t, "\" }\n");
    t
}

/// The manifest with a tool's dependency (see `with_dependency`).
pub fn add_dependency(toml: &str, line: &str) -> (r: String)
    ensures
        r@ == with_dependency(toml@, line@),
{
    if contains_text(toml, line) {
        return text_of(toml);
    }
    match find_text(toml, "\n[dependencies]\n") {
        Some(p) => {
            proof {
                reveal_strlit("\n[dependencies]\n");
            }
            insert_text(toml, p + 16, line)
        },
        None => match find_text(toml, "[dependencies]\n") {
            Some(p) => {
                proof {
                    reveal_strlit("[dependencies]\n");
                }
                insert_text(toml, p + 15, line)
            },
            None => {
                let mut t = text_of(toml);
                push(&mut t, "\n[dependencies]\n");
                push(&mut t, line);
                t
            },
        },
    }
}

/// `main.rs` with a tool imported and registered (see `with_tool_registered`).
pub fn register_tool(main_rs: &str, snake: &str, name: &str) -> (r: String)
    ensures
        r@ == with_tool_registered(main_rs@, snake@, name@),
{
    let mut imp = text_of("use ");
    push(&mut imp, snake);
    push(&mut imp, "::");
    push(&mut imp, name);
    push(&mut imp, ";\n");
    let m1 = if contains_text(main_rs, imp.as_str()) {
        text_of(main_rs)
    } else {
        match find_text(main_rs, "use app::App;") {
            Some(p) => {
                proof {
                    reveal_strlit("use app::App;");
                }
                let mut x = text_of("\n");
                push(&mut x, trim_end_text(imp.as_str()).as_str());
                insert_text(main_rs, p + 13, x.as_str())
            },
            None => text_of(main_rs),
        }
    };
    let mut reg = text_of("    app.add_tools(");
    push(&mut reg, name);
    push(&mut reg, ");\n");
    let treg = crate::text::trim_str(reg.as_str());
    if contains_text(m1.as_str(), treg.as_str()) {
        m1
    } else {
        match find_text(m1.as_str(), "    app.run()") {
            Some(p) => insert_text(m1.as_str(), p, reg.as_str()),
            None => m1,
        }
    }
}

fn trim_end_text(s: &str) -> (r: String)
    ensures
        r@ == crate::text::trim_end(s@),
{
    let cs = chars_of(s);
    let mut k: usize = cs.len();
    proof {
        assert(cs@.take(k as int) =~= cs@);
    }
    while k > 0 && crate::text::is_ws_char(cs[k - 1])
        invariant
            k <= cs@.len(),
            cs@ == s@,
            crate::text::trim_end(s@) == crate::text::trim_end(cs@.take(k as int)),
        decreases k,
    {
        proof {
            assert(cs@.take(k as int).drop_last() =~= cs@.take(k - 1));
        }
        k = k - 1;
    }
    let mut out: Vec<char> = Vec::new();
    let mut i: usize = 0;
    while i < k
        invariant
            i <= k <= cs@.len(),
            out@ == cs@.take(i as int),
        decreases k - i,
    {
        out.push(cs[i]);
        proof {
            assert(cs@.take(i + 1) =~= cs@.take(i as int).push(cs@[i as int]));
        }
        i = i + 1;
    }
    string_of(out.as_slice())
}

/// `s` with every `pat` removed (non-empty `pat`).
fn remove_all(s: &str, pat: &str) -> (r: String)
    requires
        pat@.len() > 0,
    ensures
        r@ == replace_seq(s@, pat@, Seq::empty()),
{
    let sv = chars_of(s);
    let pv = chars_of(pat);
    let e: Vec<char> = Vec::new();
    proof {
        assert(e@ =~= Seq::<char>::empty());
    }
    let out = replace_chars(&sv, &pv, &e);
    string_of(out.as_slice())
}

/// The manifest without a tool's dependency line (every copy of it removed, when there is one).
pub open spec fn without_dependency(toml: Seq<char>, line: Seq<char>) -> Seq<char> {
    if contains_seq(toml, line) { replace_seq(toml, line, Seq::empty()) } else { toml }
}

/// `main.rs` without a tool's import and registration lines.
pub open spec fn with_tool_unregistered(main_rs: Seq<char>, snake: Seq<char>, name: Seq<char>) -> Seq<char> {
    let imp = import_line_of(snake, name);
    let m1 = if contains_seq(main_rs, imp) { replace_seq(main_rs, imp, Seq::empty()) } else { main_rs };
    let reg = register_line_of(name);
    if contains_seq(m1, trim(reg)) { replace_seq(m1, reg, Seq::empty()) } else { m1 }
}

/// The manifest without a tool's dependency line (see `without_dependency`).
pub fn remove_dependency(toml: &str, line: &str) -> (r: String)
    ensures
        r@ == without_dependency(toml@, line@),
{
    if line.unicode_len() == 0 {
        return text_of(toml);
    }
    if contains_text(toml, line) { remove_all(toml, line) } else { text_of(toml) }
}

/// `main.rs` without a tool's import and registration (see `with_tool_unregistered`).
pub fn unregister_tool(main_rs: &str, snake: &str, name: &str) -> (r: String)
    ensures
        r@ == with_tool_unregistered(main_rs@, snake@, name@),
{
    let mut imp = text_of("use ");
    push(&mut imp, snake);
    push(&mut imp, "::");
    push(&mut imp, name);
    push(&mut imp, ";\n");
    proof {
        reveal_strlit("use ");
        assert(imp@.len() > 0);
    }
    let m1 = if contains_text(main_rs, imp.as_str()) { remove_all(main_rs, imp.as_str()) } else { text_of(main_rs) };
    let mut reg = text_of("    app.add_tools(");
    push(&mut reg, name);
    push(&mut reg, ");\n");
    proof {
        reveal_strlit("    app.add_tools(");
        assert(reg@.len() > 0);
    }
    let treg = crate::text::trim_str(reg.as_str());
    if contains_text(m1.as_str(), treg.as_str()) { remove_all(m1.as_str(), reg.as_str()) } else { m1 }
}


/// Adding a tool's dependency twice gives the manifest of adding it once.
pub proof fn lemma_dependency_added_once(toml: Seq<char>, line: Seq<char>)
    ensures
        with_dependency(with_dependency(toml, line), line) == with_dependency(toml, line),
{
    let r = with_dependency(toml, line);
    if !contains_seq(toml, line) {
        match find_seq(toml, "\n[dependencies]\n"@) {
            Some(p) => {
                crate::text::lemma_find_seq_occurs(toml, "\n[dependencies]\n"@);
                reveal_strlit("\n[dependencies]\n");
                lemma_inserted_contained(toml, p + 16, line);
            },
            None => match find_seq(toml, "[dependencies]\n"@) {
                Some(p) => {
                    crate::text::lemma_find_seq_occurs(toml, "[dependencies]\n"@);
                    reveal_strlit("[dependencies]\n");
                    lemma_inserted_contained(toml, p + 15, line);
                },
                None => {
                    let t = toml + "\n[dependencies]\n"@;
                    assert((t + line).subrange(t.len() as int, t.len() + line.len() as int) =~= line);
                    assert(crate::text::occurs_at(t + line, line, t.len() as int));
                },
            },
        }
    }
}

proof fn lemma_inserted_contained(s: Seq<char>, p: int, x: Seq<char>)
    requires
        0 <= p <= s.len(),
    ensures
        contains_seq(insert_at(s, p, x), x),
{
    let r = insert_at(s, p, x);
    assert(r.subrange(p, p + x.len()) =~= x);
    assert(crate::text::occurs_at(r, x, p));
}

// ---------------------------------------------------------------------------
// A new agent's manifest
// ---------------------------------------------------------------------------

/// The package metadata of a new agent.
pub open spec fn agent_metadata() -> Seq<char> {
    "description = \"Yushi AI Agent\"\nlicense = \"AGPL-3.0\"\nauthors = [\"Yushi yushi_app@163.com\"]\n"@
}

/// The dependencies and packaging lines every agent gets.
pub open spec fn agent_tail() -> Seq<char> {
    "rust-embed = \"8.9.0\"\napp.workspace = true\njieyusha.workspace = true\n\n[package.metadata.deb]\nassets = [\n    [\"target/release/rk3588\", \"usr/bin/\", \"755\"],\n]\n"@
}

/// Whether the metadata can go in front of the `[dependencies]` line: where that header is found,
/// the character before it exists and is ASCII (it is inserted before that character).
pub open spec fn manifest_fits_of(t: Seq<char>) -> bool {
    match find_seq(t, "[dependencies]"@) {
        Some(a) => a > 0 && (t[a - 1] as u32) < 128,
        None => true,
    }
}

/// The manifest of a new agent: the metadata inserted before the character preceding
/// `[dependencies]` (at the end without one), a `[dependencies]` header added when missing, and
/// the agent's dependencies and packaging lines appended.
pub open spec fn agent_manifest_of(t: Seq<char>) -> Seq<char> {
    let with_meta = match find_seq(t, "[dependencies]"@) {
        Some(a) => insert_at(t, a - 1, agent_metadata()),
        None => t + agent_metadata(),
    };
    let with_deps = if contains_seq(with_meta, "[dependencies]"@) { with_meta } else { with_meta + "\n[dependencies]\n"@ };
    with_deps + agent_tail()
}

/// Whether the metadata can be inserted (see `manifest_fits_of`).
pub fn manifest_fits(toml: &str) -> (b: bool)
    ensures
        b == manifest_fits_of(toml@),
{
    match find_text(toml, "[dependencies]") {
        Some(a) => {
            let cs = chars_of(toml);
            a > 0 && (cs[a - 1] as u32) < 128
        },
        None => true,
    }
}

/// The manifest of a new agent (see `agent_manifest_of`).
pub fn agent_manifest(toml: &str) -> (r: String)
    requires
        manifest_fits_of(toml@),
    ensures
        r@ == agent_manifest_of(toml@),
{
    let metadata = "description = \"Yushi AI Agent\"\nlicense = \"AGPL-3.0\"\nauthors = [\"Yushi yushi_app@163.com\"]\n";
    proof {
        reveal_strlit("description = \"Yushi AI Agent\"\nlicense = \"AGPL-3.0\"\nauthors = [\"Yushi yushi_app@163.com\"]\n");
    }
    let ghost with_meta = match find_seq(toml@, "[dependencies]"@) {
        Some(a) => insert_at(toml@, a - 1, agent_metadata()),
        None => toml@ + agent_metadata(),
    };
    let mut t = match find_text(toml, "[dependencies]") {
        Some(a) => insert_text(toml, a - 1, metadata),
        None => {
            let mut x = text_of(toml);
            push(&mut x, metadata);
            x
        },
    };
    assert(t@ =~= with_meta);
    let ghost with_deps = if contains_seq(with_meta, "[dependencies]"@) { with_meta } else { with_meta + "\n[dependencies]\n"@ };
    if !contains_text(t.as_str(), "[dependencies]") {
        push(&mut t, "\n[dependencies]\n");
    }
    assert(t@ =~= with_deps);
    push(&mut t, "rust-embed = \"8.9.0\"\n");
    push(&mut t, "app.workspace = true\n");
    push(&mut t, "jieyusha.workspace = true\n");
    push(&mut t, "\n[package.metadata.deb]\n");
    push(&mut t, "assets = [\n");
    push(&mut t, "    [\"target/release/rk3588\", \"usr/bin/\", \"755\"],\n");
    push(&mut t, "]\n");
    proof {
        reveal_strlit("description = \"Yushi AI Agent\"\nlicense = \"AGPL-3.0\"\nauthors = [\"Yushi yushi_app@163.com\"]\n");
        reveal_strlit("\n[dependencies]\n");
        reveal_strlit("rust-embed = \"8.9.0\"\n");
        reveal_strlit("app.workspace = true\n");
        reveal_strlit("jieyusha.workspace = true\n");
        reveal_strlit("\n[package.metadata.deb]\n");
        reveal_strlit("assets = [\n");
        reveal_strlit("    [\"target/release/rk3588\", \"usr/bin/\", \"755\"],\n");
        reveal_strlit("]\n");
        reveal_strlit("rust-embed = \"8.9.0\"\napp.workspace = true\njieyusha.workspace = true\n\n[package.metadata.deb]\nassets = [\n    [\"target/release/rk3588\", \"usr/bin/\", \"755\"],\n]\n");
        assert(t@ =~= agent_manifest_of(toml@));
    }
    t
}

// ---------------------------------------------------------------------------
// Workspace members
// ---------------------------------------------------------------------------

/// Whether `s` starts with `p`.
pub open spec fn starts_with(s: Seq<char>, p: Seq<char>) -> bool {
    p.len() <= s.len() && s.take(p.len() as int) == p
}

/// A member name as it stands in the members array.
pub open spec fn quoted(member: Seq<char>) -> Seq<char> {
    "\""@ + member + "\""@
}

/// A one-line members array without the entry: `entry, `, then `, entry`, then `entry` removed.
pub open spec fn without_entry(line: Seq<char>, e: Seq<char>) -> Seq<char> {
    replace_seq(replace_seq(replace_seq(line, e + ", "@, Seq::empty()), ", "@ + e, Seq::empty()), e, Seq::empty())
}

/// The lines of a multi-line members array from line `j` on, up to the line holding `]`, without
/// those holding the entry.
pub open spec fn drop_member_lines(ls: Seq<Seq<char>>, j: int, e: Seq<char>) -> Seq<Seq<char>>
    decreases ls.len() - j,
{
    if j < 0 || j >= ls.len() || contains_seq(ls[j], "]"@) {
        ls
    } else if contains_seq(ls[j], e) {
        drop_member_lines(ls.remove(j), j, e)
    } else {
        drop_member_lines(ls, j + 1, e)
    }
}

/// Dropping member lines never lengthens the manifest.
pub proof fn lemma_drop_member_lines_len(ls: Seq<Seq<char>>, j: int, e: Seq<char>)
    ensures
        drop_member_lines(ls, j, e).len() <= ls.len(),
        0 <= j <= ls.len() ==> drop_member_lines(ls, j, e).len() >= j,
    decreases ls.len() - j,
{
    if j < 0 || j >= ls.len() || contains_seq(ls[j], "]"@) {
    } else if contains_seq(ls[j], e) {
        lemma_drop_member_lines_len(ls.remove(j), j, e);
    } else {
        lemma_drop_member_lines_len(ls, j + 1, e);
    }
}

/// The lines of a manifest from line `i` on, the entry taken out of the `members` of its
/// `[workspace]` section: a one-line array loses the entry, a multi-line array the lines holding
/// it; another section header ends the workspace section.
pub open spec fn members_pass(ls: Seq<Seq<char>>, i: int, inside: bool, e: Seq<char>) -> Seq<Seq<char>>
    decreases ls.len() - i
    via members_pass_decreases
{
    if i < 0 || i >= ls.len() {
        ls
    } else {
        let line = ls[i];
        let t = crate::text::trim_start(line);
        if starts_with(t, "[workspace]"@) {
            members_pass(ls, i + 1, true, e)
        } else if inside && contains_seq(line, "members"@) && contains_seq(line, "="@) {
            if contains_seq(line, "["@) && contains_seq(line, "]"@) {
                if contains_seq(line, e) {
                    members_pass(ls.update(i, without_entry(line, e)), i + 1, inside, e)
                } else {
                    members_pass(ls, i + 1, inside, e)
                }
            } else if contains_seq(line, "["@) {
                members_pass(drop_member_lines(ls, i + 1, e), i + 1, inside, e)
            } else {
                members_pass(ls, i + 1, inside, e)
            }
        } else if starts_with(t, "["@) && !starts_with(t, "[workspace]"@) {
            members_pass(ls, i + 1, false, e)
        } else {
            members_pass(ls, i + 1, inside, e)
        }
    }
}

#[via_fn]
proof fn members_pass_decreases(ls: Seq<Seq<char>>, i: int, inside: bool, e: Seq<char>) {
    lemma_drop_member_lines_len(ls, i + 1, e);
}

/// A workspace manifest without a member (see `members_pass`), its lines joined with `\n`.
pub open spec fn without_member(content: Seq<char>, member: Seq<char>) -> Seq<char> {
    crate::text::join_lines(members_pass(crate::text::lines_of(content), 0, false, quoted(member)))
}

fn has_prefix(s: &str, p: &str) -> (b: bool)
    ensures
        b == starts_with(s@, p@),
{
    let cs = chars_of(s);
    let ps = chars_of(p);
    if ps.len() > cs.len() {
        return false;
    }
    let mut k: usize = 0;
    while k < ps.len()
        invariant
            k <= ps@.len(),
            ps@.len() <= cs@.len(),
            cs@ == s@,
            ps@ == p@,
            forall|q: int| 0 <= q < k ==> cs@[q] == ps@[q],
        decreases ps.len() - k,
    {
        if cs[k] != ps[k] {
            proof {
                assert(s@.take(p@.len() as int)[k as int] != p@[k as int]);
            }
            return false;
        }
        k = k + 1;
    }
    proof {
        assert(s@.take(p@.len() as int) =~= p@);
    }
    true
}

fn remove_entry(line: &str, e: &str) -> (r: String)
    requires
        e@.len() > 0,
    ensures
        r@ == without_entry(line@, e@),
{
    let mut p1 = text_of(e);
    push(&mut p1, ", ");
    let mut p2 = text_of(", ");
    push(&mut p2, e);
    let empty: Vec<char> = Vec::new();
    let a = replace_chars(&chars_of(line), &chars_of(p1.as_str()), &empty);
    let b = replace_chars(&a, &chars_of(p2.as_str()), &empty);
    let c = replace_chars(&b, &chars_of(e), &empty);
    proof {
        reveal_strlit(", ");
        assert(empty@ =~= Seq::<char>::empty());
    }
    string_of(c.as_slice())
}

/// A workspace manifest without a member (see `without_member`).
pub fn remove_workspace_member(content: &str, member: &str) -> (r: String)
    ensures
        r@ == without_member(content@, member@),
{
    let mut entry = text_of("\"");
    push(&mut entry, member);
    push(&mut entry, "\"");
    let ghost e = quoted(member@);
    proof {
        reveal_strlit("\"");
        assert(entry@ =~= e);
    }
    let mut lines = crate::text::text_lines(content);
    let ghost target = members_pass(crate::text::lines_of(content@), 0, false, e);
    let mut inside = false;
    let mut i: usize = 0;
    while i < lines.len()
        invariant
            entry@ == e,
            e.len() > 0,
            members_pass(texts_of(lines@), i as int, inside, e) == target,
        decreases lines.len() - i,
    {
        let ghost ls = texts_of(lines@);
        let t = crate::repl::trim_start_text(lines[i].as_str());
        assert(ls[i as int] == lines@[i as int]@);
        if has_prefix(t.as_str(), "[workspace]") {
            inside = true;
        } else if inside && contains_text(lines[i].as_str(), "members") && contains_text(lines[i].as_str(), "=") {
            if contains_text(lines[i].as_str(), "[") && contains_text(lines[i].as_str(), "]") {
                if contains_text(lines[i].as_str(), entry.as_str()) {
                    let updated = remove_entry(lines[i].as_str(), entry.as_str());
                    lines.set(i, updated);
                    proof {
                        assert(texts_of(lines@) =~= ls.update(i as int, without_entry(ls[i as int], e)));
                    }
                }
            } else if contains_text(lines[i].as_str(), "[") {
                let mut j: usize = i + 1;
                let ghost d = drop_member_lines(ls, i + 1, e);
                while j < lines.len() && !contains_text(lines[j].as_str(), "]")
                    invariant
                        i + 1 <= j,
                        i < lines@.len(),
                        entry@ == e,
                        e.len() > 0,
                        texts_of(lines@).len() <= ls.len(),
                        drop_member_lines(texts_of(lines@), j as int, e) == d,
                    decreases lines.len() - j,
                {
                    let ghost cur = texts_of(lines@);
                    assert(cur[j as int] == lines@[j as int]@);
                    if contains_text(lines[j].as_str(), entry.as_str()) {
                        let _gone = lines.remove(j);
                        proof {
                            assert(texts_of(lines@) =~= cur.remove(j as int));
                        }
                    } else {
                        j = j + 1;
                    }
                }
                proof {
                    let cur = texts_of(lines@);
                    if j < lines@.len() {
                        assert(cur[j as int] == lines@[j as int]@);
                    }
                    assert(drop_member_lines(cur, j as int, e) == cur);
                }
            }
        } else if has_prefix(t.as_str(), "[") && !has_prefix(t.as_str(), "[workspace]") {
            inside = false;
        }
        i = i + 1;
    }
    proof {
        assert(texts_of(lines@).skip(0) =~= texts_of(lines@));
    }
    crate::text::join_lines_from(&lines, 0)
}

} // verus!
