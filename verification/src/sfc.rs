//! Single-file components: a file of `<template>`, `<script>` and `<style>`
//! blocks, split into its blocks.

use crate::template_parse::{blank_end, skip_ws};
use crate::text::{
    chars_of, find, find_from, find_word, stands_at, starts_at, string_of, string_of_range,
    word_from,
};
use vstd::prelude::*;

verus! {

/// An attribute of a block; one without a value is a flag, such as `scoped`
/// or `setup`.
#[derive(Debug, PartialEq)]
pub struct Attr {
    pub name: String,
    pub value: Option<String>,
}

/// The `<template>` block.
#[derive(Debug, PartialEq)]
pub struct TemplateBlock {
    pub attrs: Vec<Attr>,
    pub content: String,
}

/// A `<script>` block.
#[derive(Debug, PartialEq)]
pub struct ScriptBlock {
    pub attrs: Vec<Attr>,
    pub content: String,
    pub setup: bool,
}

/// The `<style>` block.
#[derive(Debug, PartialEq)]
pub struct StyleBlock {
    pub attrs: Vec<Attr>,
    pub content: String,
}

/// The blocks of a single-file component.
#[derive(Debug, PartialEq)]
pub struct Sfc {
    pub template: Option<TemplateBlock>,
    pub script_setup: Option<ScriptBlock>,
    pub script: Option<ScriptBlock>,
    pub style: Option<StyleBlock>,
}

/// An attribute of a block as the contracts see it: its name and its value.
pub type AttrPair = (Seq<char>, Option<Seq<char>>);

/// A block as the contracts see it: its attributes and its content.
pub struct BlockView {
    pub attrs: Seq<AttrPair>,
    pub content: Seq<char>,
}

/// A single-file component as the contracts see it.
pub struct SfcView {
    pub template: Option<BlockView>,
    pub script_setup: Option<BlockView>,
    pub script: Option<BlockView>,
    pub style: Option<BlockView>,
}

/// The view of an attribute.
pub open spec fn pair_of(a: Attr) -> AttrPair {
    (
        a.name@,
        match a.value {
            Some(v) => Some(v@),
            None => None,
        },
    )
}

/// The views of the attributes of `attrs`, in order.
pub open spec fn pairs(attrs: Seq<Attr>) -> Seq<AttrPair> {
    Seq::new(attrs.len(), |i: int| pair_of(attrs[i]))
}

impl View for TemplateBlock {
    type V = BlockView;

    open spec fn view(&self) -> BlockView {
        BlockView { attrs: pairs(self.attrs@), content: self.content@ }
    }
}

impl View for ScriptBlock {
    type V = BlockView;

    open spec fn view(&self) -> BlockView {
        BlockView { attrs: pairs(self.attrs@), content: self.content@ }
    }
}

impl View for StyleBlock {
    type V = BlockView;

    open spec fn view(&self) -> BlockView {
        BlockView { attrs: pairs(self.attrs@), content: self.content@ }
    }
}

/// The view of an optional template block.
pub open spec fn template_view(b: Option<TemplateBlock>) -> Option<BlockView> {
    match b {
        Some(t) => Some(t@),
        None => None,
    }
}

/// The view of an optional script block.
pub open spec fn script_view(b: Option<ScriptBlock>) -> Option<BlockView> {
    match b {
        Some(t) => Some(t@),
        None => None,
    }
}

/// The view of an optional style block.
pub open spec fn style_view(b: Option<StyleBlock>) -> Option<BlockView> {
    match b {
        Some(t) => Some(t@),
        None => None,
    }
}

impl View for Sfc {
    type V = SfcView;

    open spec fn view(&self) -> SfcView {
        SfcView {
            template: template_view(self.template),
            script_setup: script_view(self.script_setup),
            script: script_view(self.script),
            style: style_view(self.style),
        }
    }
}

impl Sfc {
    /// Every script block says of itself whether it is the setup script, and
    /// stands in its place.
    pub open spec fn wf(&self) -> bool {
        &&& self.script_setup matches Some(s) ==> s.setup
        &&& self.script matches Some(s) ==> !s.setup
    }
}

impl Default for Sfc {
    fn default() -> (sfc: Sfc)
        ensures
            sfc@ == (SfcView { template: None, script_setup: None, script: None, style: None }),
            sfc.wf(),
    {
        Sfc { template: None, script_setup: None, script: None, style: None }
    }
}

/// `s` without the quotes around it, where it stands between two double or
/// two single quotes.
pub open spec fn unquoted(s: Seq<char>) -> Seq<char> {
    if s.len() >= 2 && ((s[0] == '"' && s.last() == '"') || (s[0] == '\'' && s.last() == '\'')) {
        s.subrange(1, s.len() - 1)
    } else {
        s
    }
}

/// `s` without the quotes around it.
pub fn strip_quotes(s: &str) -> (r: String)
    ensures
        r@ == unquoted(s@),
{
    let v = chars_of(s);
    let n = v.len();
    if n >= 2 && ((v[0] == '"' && v[n - 1] == '"') || (v[0] == '\'' && v[n - 1] == '\'')) {
        string_of_range(&v, 1, n - 1)
    } else {
        string_of(&v)
    }
}

/// One of the attributes is named `key`.
pub open spec fn has_attr(attrs: Seq<AttrPair>, key: Seq<char>) -> bool {
    exists|i: int| 0 <= i < attrs.len() && (#[trigger] attrs[i]).0 == key
}

/// Whether one of the attributes is named `key`.
pub fn has_bool_attr(attrs: &Vec<Attr>, key: &str) -> (b: bool)
    ensures
        b == has_attr(pairs(attrs@), key@),
{
    let ghost views = pairs(attrs@);
    let mut i: usize = 0;
    while i < attrs.len()
        invariant
            i <= attrs@.len(),
            views == pairs(attrs@),
            forall|j: int| 0 <= j < i ==> (#[trigger] views[j]).0 != key@,
        decreases attrs@.len() - i,
    {
        assert(views[i as int].0 == attrs@[i as int].name@);
        if attrs[i].name.as_str().eq(key) {
            return true;
        }
        i = i + 1;
    }
    false
}

/// A character of an attribute name: a letter or digit of the basic
/// alphabet, an underscore, a hyphen or a colon.
pub open spec fn is_attr_char(c: char) -> bool {
    ('a' <= c <= 'z') || ('A' <= c <= 'Z') || ('0' <= c <= '9') || c == '_' || c == '-' || c == ':'
}

/// The first position from `i` on that holds no attribute-name character.
pub open spec fn attr_name_end(s: Seq<char>, i: int) -> int
    decreases s.len() - i,
{
    if 0 <= i < s.len() && is_attr_char(s[i]) {
        attr_name_end(s, i + 1)
    } else {
        i
    }
}

/// The attribute at `i`, and where reading goes on: a name and, white
/// space apart, an equals sign and a value between two double or two
/// single quotes, if they follow. Nothing where `i` holds no name character.
pub open spec fn block_attr_at(s: Seq<char>, i: int) -> Option<(AttrPair, int)> {
    let e = attr_name_end(s, i);
    if e <= i {
        None
    } else {
        let name = s.subrange(i, e);
        let j = blank_end(s, e);
        let k = blank_end(s, j + 1);
        if 0 <= j < s.len() && s[j] == '=' && 0 <= k < s.len() && (s[k] == '"' || s[k] == '\'')
            && find_from(s, s[k], k + 1) < s.len() {
            let close = find_from(s, s[k], k + 1);
            Some(((name, Some(unquoted(s.subrange(k, close + 1)))), close + 1))
        } else {
            Some(((name, None), e))
        }
    }
}

/// The attributes from `i` up to the `>` that ends the opening tag, and the
/// position behind it; nothing if something else stands there.
pub open spec fn block_attrs_from(s: Seq<char>, i: int) -> Option<(Seq<AttrPair>, int)>
    decreases s.len() - i,
{
    let j = blank_end(s, i);
    if i < 0 || j < i || j >= s.len() {
        None
    } else if s[j] == '>' {
        Some((Seq::empty(), j + 1))
    } else {
        match block_attr_at(s, j) {
            Some((a, next)) => if j < next <= s.len() {
                match block_attrs_from(s, next) {
                    Some((rest, end)) => Some((seq![a] + rest, end)),
                    None => None,
                }
            } else {
                None
            },
            None => None,
        }
    }
}

/// The block named `name` that begins at `i`, and the position behind it:
/// `<`, the name, attributes, `>`, the content up to the next `</`, name,
/// `>`. Nothing if no such block stands there.
pub open spec fn named_block_at(s: Seq<char>, i: int, name: Seq<char>) -> Option<(BlockView, int)> {
    let open = "<"@ + name;
    let close = "</"@ + name + ">"@;
    if stands_at(s, i, open) {
        match block_attrs_from(s, i + open.len()) {
            Some((attrs, body)) => {
                let end = word_from(s, close, body);
                if 0 <= body <= end && stands_at(s, end, close) {
                    Some((BlockView { attrs, content: s.subrange(body, end) }, end + close.len()))
                } else {
                    None
                }
            },
            None => None,
        }
    } else {
        None
    }
}

/// The component `acc` with what the block at `i` adds to it, and the
/// position behind the block. A template, a script or a style takes the
/// place of an earlier one; a script with the attribute `setup` is the setup
/// script.
pub open spec fn with_block_at(s: Seq<char>, i: int, acc: SfcView) -> Option<(SfcView, int)> {
    if named_block_at(s, i, "template"@) is Some {
        let b = named_block_at(s, i, "template"@).unwrap();
        Some((SfcView { template: Some(b.0), ..acc }, b.1))
    } else if named_block_at(s, i, "script"@) is Some {
        let b = named_block_at(s, i, "script"@).unwrap();
        if has_attr(b.0.attrs, "setup"@) {
            Some((SfcView { script_setup: Some(b.0), ..acc }, b.1))
        } else {
            Some((SfcView { script: Some(b.0), ..acc }, b.1))
        }
    } else if named_block_at(s, i, "style"@) is Some {
        let b = named_block_at(s, i, "style"@).unwrap();
        Some((SfcView { style: Some(b.0), ..acc }, b.1))
    } else {
        None
    }
}

/// The component that the blocks from `i` on make of `acc`; nothing if
/// anything but blocks and white space stands there.
pub open spec fn blocks_from(s: Seq<char>, i: int, acc: SfcView) -> Option<SfcView>
    decreases s.len() - i,
{
    let j = blank_end(s, i);
    if i < 0 || j < i {
        None
    } else if j >= s.len() {
        Some(acc)
    } else {
        match with_block_at(s, j, acc) {
            Some((next_acc, next)) => if j < next <= s.len() {
                blocks_from(s, next, next_acc)
            } else {
                None
            },
            None => None,
        }
    }
}

/// The component that the file `s` writes: blocks with white space between
/// them, and nothing else.
pub open spec fn sfc_of(s: Seq<char>) -> Option<SfcView> {
    blocks_from(
        s,
        0,
        SfcView { template: None, script_setup: None, script: None, style: None },
    )
}

/// Whether `c` is an attribute-name character.
fn is_attr_name_char(c: char) -> (b: bool)
    ensures
        b == is_attr_char(c),
{
    ('a' <= c && c <= 'z') || ('A' <= c && c <= 'Z') || ('0' <= c && c <= '9') || c == '_' || c
        == '-' || c == ':'
}

/// The attribute at `i`, and where reading goes on.
fn read_block_attr(v: &Vec<char>, i: usize) -> (r: Option<(Attr, usize)>)
    requires
        i <= v@.len(),
    ensures
        match r {
            Some((a, next)) => block_attr_at(v@, i as int) == Some((pair_of(a), next as int)) && i
                < next <= v@.len(),
            None => block_attr_at(v@, i as int).is_none(),
        },
{
    let n = v.len();
    let mut e: usize = i;
    while e < n && is_attr_name_char(v[e])
        invariant
            n == v@.len(),
            i <= e <= n,
            attr_name_end(v@, e as int) == attr_name_end(v@, i as int),
        decreases n - e,
    {
        e = e + 1;
    }
    if e == i {
        return None;
    }
    let name = string_of_range(v, i, e);
    let j = skip_ws(v, e);
    if j < n && v[j] == '=' {
        let k = skip_ws(v, j + 1);
        if k < n && (v[k] == '"' || v[k] == '\'') {
            let close = find(v, v[k], k + 1);
            if close < n {
                let token = string_of_range(v, k, close + 1);
                let value = strip_quotes(token.as_str());
                return Some((Attr { name, value: Some(value) }, close + 1));
            }
        }
    }
    Some((Attr { name, value: None }, e))
}

/// The attributes from `i` up to the `>` that ends the opening tag, and
/// the position behind it.
fn read_block_attrs(v: &Vec<char>, i: usize) -> (r: Option<(Vec<Attr>, usize)>)
    requires
        i <= v@.len(),
    ensures
        match r {
            Some((attrs, end)) => block_attrs_from(v@, i as int) == Some((pairs(attrs@), end as int))
                && i < end <= v@.len(),
            None => block_attrs_from(v@, i as int).is_none(),
        },
    decreases v@.len() - i,
{
    let j = skip_ws(v, i);
    if j >= v.len() {
        return None;
    }
    if v[j] == '>' {
        let attrs: Vec<Attr> = Vec::new();
        assert(pairs(attrs@) =~= Seq::<AttrPair>::empty());
        return Some((attrs, j + 1));
    }
    match read_block_attr(v, j) {
        Some((a, next)) => {
            match read_block_attrs(v, next) {
                Some((rest, end)) => {
                    let ghost first = pair_of(a);
                    let ghost tail = pairs(rest@);
                    let mut attrs = rest;
                    attrs.insert(0, a);
                    assert(pairs(attrs@) =~= seq![first] + tail);
                    Some((attrs, end))
                },
                None => None,
            }
        },
        None => None,
    }
}

/// The block named `name` that begins at `i`: its attributes, its content
/// and the position behind it.
fn read_named_block(v: &Vec<char>, i: usize, name: &str) -> (r: Option<(Vec<Attr>, String, usize)>)
    requires
        i <= v@.len(),
    ensures
        match r {
            Some((attrs, content, next)) => named_block_at(v@, i as int, name@) == Some(
                (BlockView { attrs: pairs(attrs@), content: content@ }, next as int),
            ) && i < next <= v@.len(),
            None => named_block_at(v@, i as int, name@).is_none(),
        },
{
    let mut open_text = String::from_str("<");
    open_text.append(name);
    let mut close_text = String::from_str("</");
    close_text.append(name);
    close_text.append(">");
    let open = chars_of(open_text.as_str());
    let close = chars_of(close_text.as_str());
    proof {
        reveal_strlit("</");
        reveal_strlit(">");
        assert(close@.len() == name@.len() + 3);
    }
    let len = v.len();
    if !starts_at(v, i, &open) {
        return None;
    }
    assert(i + open@.len() <= len);
    match read_block_attrs(v, i + open.len()) {
        Some((attrs, body)) => {
            let end = find_word(v, &close, body);
            if starts_at(v, end, &close) {
                assert(end + close@.len() <= len);
                Some((attrs, string_of_range(v, body, end), end + close.len()))
            } else {
                None
            }
        },
        None => None,
    }
}

/// Splits a single-file component into its blocks. The file holds
/// `<template>`, `<script>` and `<style>` blocks, each with attributes in
/// its opening tag, and white space between them; anything else is refused.
/// Of several templates, scripts, setup scripts or styles the last counts.
pub fn parse_sfc(source: &str) -> (r: Result<Sfc, String>)
    ensures
        match r {
            Ok(sfc) => sfc_of(source@) == Some(sfc@) && sfc.wf(),
            Err(_) => sfc_of(source@).is_none(),
        },
{
    let v = chars_of(source);
    let mut sfc = Sfc::default();
    let mut i: usize = 0;
    loop
        invariant
            i <= v@.len(),
            v@ == source@,
            sfc.wf(),
            blocks_from(v@, i as int, sfc@) == sfc_of(source@),
        decreases v@.len() - i,
    {
        let j = skip_ws(&v, i);
        if j >= v.len() {
            return Ok(sfc);
        }
        match read_named_block(&v, j, "template") {
            Some((attrs, content, next)) => {
                sfc.template = Some(TemplateBlock { attrs, content });
                i = next;
                continue ;
            },
            None => {},
        }
        match read_named_block(&v, j, "script") {
            Some((attrs, content, next)) => {
                let setup = has_bool_attr(&attrs, "setup");
                let block = ScriptBlock { attrs, content, setup };
                if setup {
                    sfc.script_setup = Some(block);
                } else {
                    sfc.script = Some(block);
                }
                i = next;
                continue ;
            },
            None => {},
        }
        match read_named_block(&v, j, "style") {
            Some((attrs, content, next)) => {
                sfc.style = Some(StyleBlock { attrs, content });
                i = next;
                continue ;
            },
            None => {},
        }
        return Err(String::from_str("expected a <template>, <script> or <style> block"));
    }
}

} // verus!
