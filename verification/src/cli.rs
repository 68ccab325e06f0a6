//! What the command line tool computes: the text of a generated module, and
//! the text of a workspace manifest with one more member.

use crate::sfc::{BlockView, Sfc, SfcView};
use crate::template_codegen::{compile_template_to_rs, compiled, literal, push_literal};
use crate::template_parse::lower;
use crate::text::{chars_of, find, find_from, find_word, word_from};
use vstd::prelude::*;

verus! {

/// What a build emits.
#[derive(Debug, Clone, Copy, PartialEq, Eq, Structural)]
pub enum EmitMode {
    /// The constants of the component only.
    Stub,
    /// The constants and a `render` function.
    Render,
}

/// The text of the generated module: the constants `stub`, and for
/// `Render`, on lines of their own, the module that the template compiles
/// to.
pub open spec fn assembled(emit: EmitMode, stub: Seq<char>, template_src: Seq<char>) -> Seq<char> {
    match emit {
        EmitMode::Stub => stub,
        EmitMode::Render => stub + "\n"@ + compiled(template_src) + "\n"@,
    }
}

/// The text of the generated module for the component `name`.
pub fn assemble(emit: EmitMode, stub: &str, template_src: &str, name: &str) -> (r: Result<
    String,
    String,
>)
    ensures
        r matches Ok(code) && code@ == assembled(emit, stub@, template_src@),
{
    let mut code = String::from_str(stub);
    match emit {
        EmitMode::Stub => {},
        EmitMode::Render => {
            let render_fn = match compile_template_to_rs(template_src, name) {
                Ok(text) => text,
                Err(e) => {
                    return Err(e);
                },
            };
            code.append("\n");
            code.append(render_fn.as_str());
            code.append("\n");
        },
    }
    Ok(code)
}

/// What adding a member to a workspace manifest comes to.
#[derive(Debug, PartialEq)]
pub enum MemberUpdate {
    /// The manifest names the member already.
    Present,
    /// The manifest with the member added.
    Added(String),
    /// The manifest has no members array to add to.
    NoMembersArray,
}

/// What adding a member comes to, as the contracts see it.
pub enum MemberUpdateView {
    Present,
    Added(Seq<char>),
    NoMembersArray,
}

impl View for MemberUpdate {
    type V = MemberUpdateView;

    open spec fn view(&self) -> MemberUpdateView {
        match self {
            MemberUpdate::Present => MemberUpdateView::Present,
            MemberUpdate::Added(t) => MemberUpdateView::Added(t@),
            MemberUpdate::NoMembersArray => MemberUpdateView::NoMembersArray,
        }
    }
}

/// The manifest `txt` with the member `member`: unchanged if it holds the
/// member between double quotes; else the member stands, on a line of its
/// own, before the first `]` behind the first `members = [`.
pub open spec fn with_member(txt: Seq<char>, member: Seq<char>) -> MemberUpdateView {
    let quoted = "\""@ + member + "\""@;
    let start = word_from(txt, "members = ["@, 0);
    let end = find_from(txt, ']', start);
    if word_from(txt, quoted, 0) < txt.len() {
        MemberUpdateView::Present
    } else if 0 <= start <= end < txt.len() {
        MemberUpdateView::Added(
            txt.subrange(0, end) + "\n    \""@ + member + "\",\n"@ + txt.subrange(
                end,
                txt.len() as int,
            ),
        )
    } else {
        MemberUpdateView::NoMembersArray
    }
}

/// Adds the member `member` to the workspace manifest `txt`.
pub fn add_member(txt: &str, member: &str) -> (r: MemberUpdate)
    ensures
        r@ == with_member(txt@, member@),
{
    let v = chars_of(txt);
    let mut quoted_text = String::from_str("\"");
    quoted_text.append(member);
    quoted_text.append("\"");
    let quoted = chars_of(quoted_text.as_str());
    proof {
        reveal_strlit("\"");
        assert(quoted@.len() == member@.len() + 2);
    }
    if find_word(&v, &quoted, 0) < v.len() {
        return MemberUpdate::Present;
    }
    let start = find_word(&v, &chars_of("members = ["), 0);
    let end = find(&v, ']', start);
    if end < v.len() {
        let mut out = crate::text::string_of_range(&v, 0, end);
        out.append("\n    \"");
        out.append(member);
        out.append("\",\n");
        let rest = crate::text::string_of_range(&v, end, v.len());
        out.append(rest.as_str());
        MemberUpdate::Added(out)
    } else {
        MemberUpdate::NoMembersArray
    }
}

/// The content of a block, or the empty string if there is none.
pub open spec fn content_of(block: Option<BlockView>) -> Seq<char> {
    match block {
        Some(b) => b.content,
        None => Seq::empty(),
    }
}

/// `name` with the upper-case letters of the basic alphabet made lower
/// case.
pub open spec fn lowered(name: Seq<char>) -> Seq<char> {
    Seq::new(name.len(), |i: int| lower(name[i]))
}

/// One constant of the generated module.
pub open spec fn constant(name: Seq<char>, value: Seq<char>) -> Seq<char> {
    "    pub const "@ + name + ": &str = "@ + literal(value) + ";\n"@
}

/// The module of constants for the component `name`: a module named after
/// the component, in lower case, with the contents of its blocks as the
/// string constants `TEMPLATE`, `SCRIPT_SETUP`, `SCRIPT` and `STYLE`, empty
/// for a block that is not there.
pub open spec fn stub_text(sfc: SfcView, name: Seq<char>) -> Seq<char> {
    "pub mod "@ + lowered(name) + " {\n"@ + constant("TEMPLATE"@, content_of(sfc.template))
        + constant("SCRIPT_SETUP"@, content_of(sfc.script_setup)) + constant(
        "SCRIPT"@,
        content_of(sfc.script),
    ) + constant("STYLE"@, content_of(sfc.style)) + "}\n"@
}

/// Appends one constant to `out`.
fn push_constant(out: &mut String, name: &str, value: &str)
    ensures
        final(out)@ == old(out)@ + constant(name@, value@),
{
    let ghost start = out@;
    out.append("    pub const ");
    out.append(name);
    out.append(": &str = ");
    push_literal(out, value);
    out.append(";\n");
    assert(out@ =~= start + constant(name@, value@));
}

/// The module of constants for the component `name`.
pub fn to_stub_rs(sfc: &Sfc, name: &str) -> (r: String)
    ensures
        r@ == stub_text(sfc@, name@),
{
    proof {
        reveal_strlit("");
        assert(""@ =~= Seq::<char>::empty());
    }
    let letters = chars_of(name);
    let mut out = String::from_str("pub mod ");
    let ghost head = out@;
    let mut i: usize = 0;
    assert(out@ =~= head + lowered(name@).subrange(0, 0));
    while i < letters.len()
        invariant
            i <= letters@.len(),
            letters@ == name@,
            out@ == head + lowered(name@).subrange(0, i as int),
        decreases letters@.len() - i,
    {
        let c = letters[i];
        if 'A' <= c && c <= 'Z' {
            out.push(((c as u8) + 32) as char);
        } else {
            out.push(c);
        }
        assert(out@ =~= head + lowered(name@).subrange(0, i + 1));
        i = i + 1;
    }
    assert(lowered(name@).subrange(0, name@.len() as int) =~= lowered(name@));
    out.append(" {\n");
    let template: &str = match &sfc.template {
        Some(b) => b.content.as_str(),
        None => "",
    };
    let script_setup: &str = match &sfc.script_setup {
        Some(b) => b.content.as_str(),
        None => "",
    };
    let script: &str = match &sfc.script {
        Some(b) => b.content.as_str(),
        None => "",
    };
    let style: &str = match &sfc.style {
        Some(b) => b.content.as_str(),
        None => "",
    };
    push_constant(&mut out, "TEMPLATE", template);
    push_constant(&mut out, "SCRIPT_SETUP", script_setup);
    push_constant(&mut out, "SCRIPT", script);
    push_constant(&mut out, "STYLE", style);
    out.append("}\n");
    assert(out@ =~= stub_text(sfc@, name@));
    out
}

/// What reaches the development loop.
#[derive(Debug, Clone, Copy, PartialEq, Eq, Structural)]
pub enum DevEvent {
    /// A key was pressed.
    Key(char),
    /// The watched files were looked at: the time of the newest change
    /// among them.
    Modified(u64),
    /// The running program has ended, well or not.
    Exited(bool),
}

/// What the development loop does next.
#[derive(Debug, Clone, Copy, PartialEq, Eq, Structural)]
pub enum DevAction {
    /// Go on.
    Nothing,
    /// Stop the program and start it again, because the user asked for it.
    Reload,
    /// Stop the program and start it again, because a file has changed.
    Rebuild,
    /// Stop the program and leave the loop.
    Quit,
    /// Leave the loop: the program has ended well.
    Stop,
    /// Leave the loop with an error: the program has failed.
    Fail,
}

/// The action that `event` calls for when the newest change seen so far was
/// at `last_change`, and the newest change seen from then on. The keys `r`
/// and `q`, in either case, reload and quit; a change newer than the newest
/// seen rebuilds and is remembered; a program that has ended stops the loop,
/// with an error if it failed.
pub open spec fn dev_decision(event: DevEvent, last_change: u64) -> (DevAction, u64) {
    match event {
        DevEvent::Key(c) => if c == 'r' || c == 'R' {
            (DevAction::Reload, last_change)
        } else if c == 'q' || c == 'Q' {
            (DevAction::Quit, last_change)
        } else {
            (DevAction::Nothing, last_change)
        },
        DevEvent::Modified(now) => if now > last_change {
            (DevAction::Rebuild, now)
        } else {
            (DevAction::Nothing, last_change)
        },
        DevEvent::Exited(success) => if success {
            (DevAction::Stop, last_change)
        } else {
            (DevAction::Fail, last_change)
        },
    }
}

/// One decision of the development loop: what to do on `event`, and the
/// newest change seen from then on.
pub fn dev_step(event: DevEvent, last_change: u64) -> (r: (DevAction, u64))
    ensures
        r == dev_decision(event, last_change),
{
    match event {
        DevEvent::Key(c) => {
            if c == 'r' || c == 'R' {
                (DevAction::Reload, last_change)
            } else if c == 'q' || c == 'Q' {
                (DevAction::Quit, last_change)
            } else {
                (DevAction::Nothing, last_change)
            }
        },
        DevEvent::Modified(now) => {
            if now > last_change {
                (DevAction::Rebuild, now)
            } else {
                (DevAction::Nothing, last_change)
            }
        },
        DevEvent::Exited(success) => {
            if success {
                (DevAction::Stop, last_change)
            } else {
                (DevAction::Fail, last_change)
            }
        },
    }
}

} // verus!
