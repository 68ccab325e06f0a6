//! Reading a template: a lenient reader of nested elements with attributes,
//! texts and `{{ interpolation }}`s.

use crate::template_ast::{
    attr_views, clone_attrs, node_views, AttrKind, AttrView, Node, TemplateAttr, TemplateView,
};
use crate::text::{
    all_space, chars_of, copy_range, find, find_from, is_all_ws, string_of, string_of_range, trim,
    trimmed,
};
use vstd::prelude::*;

verus! {

/// A letter or digit of the basic alphabet, an underscore or a hyphen.
pub open spec fn is_ident_char(c: char) -> bool {
    ('a' <= c <= 'z') || ('A' <= c <= 'Z') || ('0' <= c <= '9') || c == '_' || c == '-'
}

/// A character of an attribute name: as in a tag name, or a colon, or `@`.
pub open spec fn is_name_char(c: char) -> bool {
    is_ident_char(c) || c == ':' || c == '@'
}

/// White space inside a tag: a blank, a tab, a line feed, a vertical tab, a
/// form feed or a carriage return.
pub open spec fn is_blank(c: char) -> bool {
    c == ' ' || ('\t' <= c <= '\r')
}

/// The first position from `i` on that holds no tag-name character.
pub open spec fn ident_end(s: Seq<char>, i: int) -> int
    decreases s.len() - i,
{
    if 0 <= i < s.len() && is_ident_char(s[i]) {
        ident_end(s, i + 1)
    } else {
        i
    }
}

/// The first position from `i` on that holds no attribute-name character.
pub open spec fn name_end(s: Seq<char>, i: int) -> int
    decreases s.len() - i,
{
    if 0 <= i < s.len() && is_name_char(s[i]) {
        name_end(s, i + 1)
    } else {
        i
    }
}

/// The first position from `i` on that holds no white space.
pub open spec fn blank_end(s: Seq<char>, i: int) -> int
    decreases s.len() - i,
{
    if 0 <= i < s.len() && is_blank(s[i]) {
        blank_end(s, i + 1)
    } else {
        i
    }
}

/// The first position from `i` on at which `}}` begins, or the last
/// position of `s` if there is none (`i` itself if `i` lies behind it).
pub open spec fn braces_from(s: Seq<char>, i: int) -> int
    decreases s.len() - i,
{
    if 0 <= i && i + 1 < s.len() && !(s[i] == '}' && s[i + 1] == '}') {
        braces_from(s, i + 1)
    } else {
        i
    }
}

/// The first position from `i` on that holds `<` or at which `{{` begins,
/// or the length.
pub open spec fn text_end(s: Seq<char>, i: int) -> int
    decreases s.len() - i,
{
    if 0 <= i < s.len() && s[i] != '<' && !(i + 1 < s.len() && s[i] == '{' && s[i + 1] == '{') {
        text_end(s, i + 1)
    } else {
        i
    }
}

/// The scans stay within the string and do not go back.
pub proof fn scans_advance(s: Seq<char>, i: int)
    requires
        0 <= i <= s.len(),
    ensures
        i <= ident_end(s, i) <= s.len(),
        i <= name_end(s, i) <= s.len(),
        i <= blank_end(s, i) <= s.len(),
        i <= braces_from(s, i) <= s.len(),
        i <= text_end(s, i) <= s.len(),
    decreases s.len() - i,
{
    if i < s.len() {
        scans_advance(s, i + 1);
    }
}

/// The lower-case letter of an upper-case letter of the basic alphabet.
pub open spec fn lower(c: char) -> char {
    if 'A' <= c <= 'Z' {
        ((c as u8) + 32) as char
    } else {
        c
    }
}

/// The first `n` characters of `s` with each underscore made a hyphen and
/// each upper-case letter made a hyphen and its lower-case letter.
pub open spec fn dashed(s: Seq<char>, n: nat) -> Seq<char>
    decreases n,
{
    if n == 0 || n > s.len() {
        Seq::empty()
    } else {
        let rest = dashed(s, (n - 1) as nat);
        let c = s[n - 1];
        if c == '_' {
            rest.push('-')
        } else if 'A' <= c <= 'Z' {
            rest.push('-').push(lower(c))
        } else {
            rest.push(c)
        }
    }
}

/// The first `n` characters of `s` with each run of hyphens made one.
pub open spec fn collapsed(s: Seq<char>, n: nat) -> Seq<char>
    decreases n,
{
    if n == 0 || n > s.len() {
        Seq::empty()
    } else {
        let rest = collapsed(s, (n - 1) as nat);
        if s[n - 1] == '-' && rest.len() > 0 && rest.last() == '-' {
            rest
        } else {
            rest.push(s[n - 1])
        }
    }
}

/// The first position from `i` on that holds no hyphen.
pub open spec fn dash_end(s: Seq<char>, i: int) -> int
    decreases s.len() - i,
{
    if 0 <= i < s.len() && s[i] == '-' {
        dash_end(s, i + 1)
    } else {
        i
    }
}

/// The end of `s` before position `j` once the hyphens in front of `j` are
/// dropped, but not below `lo`.
pub open spec fn dash_start(s: Seq<char>, j: int, lo: int) -> int
    decreases j,
{
    if 0 <= lo < j <= s.len() && s[j - 1] == '-' {
        dash_start(s, j - 1, lo)
    } else {
        j
    }
}

/// `s` without the hyphens at its start and at its end.
pub open spec fn undashed(s: Seq<char>) -> Seq<char> {
    let a = dash_end(s, 0);
    let b = dash_start(s, s.len() as int, a);
    s.subrange(a, b)
}

/// The name of a directive in its normal form: lower case, words joined by
/// single hyphens, none at the start or the end.
pub open spec fn normalized(s: Seq<char>) -> Seq<char> {
    let d = dashed(s, s.len());
    undashed(collapsed(d, d.len()))
}

/// The kind and the name that the written name `raw` stands for: behind a
/// colon a binding, behind `@` an event, behind `v-` a directive, whose name
/// is normalized; else a static attribute.
pub open spec fn classified(raw: Seq<char>) -> (AttrKind, Seq<char>) {
    if raw.len() > 0 && raw[0] == ':' {
        (AttrKind::Bind, raw.subrange(1, raw.len() as int))
    } else if raw.len() > 0 && raw[0] == '@' {
        (AttrKind::On, raw.subrange(1, raw.len() as int))
    } else if raw.len() > 1 && raw[0] == 'v' && raw[1] == '-' {
        (AttrKind::Directive, normalized(raw.subrange(2, raw.len() as int)))
    } else {
        (AttrKind::Static, raw)
    }
}

/// The quoted value at `i`, and where reading goes on: the characters
/// between the quote at `i`, single or double, and the next such quote or
/// the end; nothing where `i` holds no quote.
pub open spec fn quoted_at(s: Seq<char>, i: int) -> (Option<Seq<char>>, int) {
    if 0 <= i < s.len() && (s[i] == '"' || s[i] == '\'') {
        let e = find_from(s, s[i], i + 1);
        (Some(s.subrange(i + 1, e)), if e < s.len() {
            e + 1
        } else {
            e
        })
    } else {
        (None, i)
    }
}

/// The attribute at `i`, and where reading goes on: a name, and behind it,
/// white space apart, an equals sign and a quoted value, if they are there.
/// Nothing where `i` holds no name character.
pub open spec fn attribute_at(s: Seq<char>, i: int) -> (Option<AttrView>, int) {
    let e = name_end(s, i);
    if e <= i {
        (None, i)
    } else {
        let j = blank_end(s, e);
        let (value, next) = if 0 <= j < s.len() && s[j] == '=' {
            quoted_at(s, blank_end(s, j + 1))
        } else {
            (None, j)
        };
        let (kind, name) = classified(s.subrange(i, e));
        (Some(AttrView { name, value, kind }), next)
    }
}

/// What stands in a tag from `i` on: its attributes, whether it closes
/// itself, and where reading goes on. White space is passed over; a slash
/// makes the tag close itself and ends it, with the `>` behind it if there
/// is one; a `>` ends it; a character that begins no attribute is passed
/// over.
pub open spec fn tag_rest(s: Seq<char>, i: int) -> (Seq<AttrView>, bool, int)
    decreases s.len() - i,
{
    let j = blank_end(s, i);
    if j < i || j >= s.len() || i < 0 {
        (Seq::empty(), false, j)
    } else if s[j] == '/' {
        let k = blank_end(s, j + 1);
        (Seq::empty(), true, if 0 <= k < s.len() && s[k] == '>' {
            k + 1
        } else {
            k
        })
    } else if s[j] == '>' {
        (Seq::empty(), false, j + 1)
    } else {
        let (attr, next) = attribute_at(s, j);
        match attr {
            Some(a) => {
                if j < next <= s.len() {
                    let rest = tag_rest(s, next);
                    (seq![a] + rest.0, rest.1, rest.2)
                } else {
                    (seq![a], false, j)
                }
            },
            None => tag_rest(s, j + 1),
        }
    }
}

/// A piece of a template.
#[derive(Debug, PartialEq)]
pub enum Token {
    /// An opening tag.
    Open { tag: String, attrs: Vec<TemplateAttr>, self_closing: bool },
    /// A closing tag.
    Close(String),
    /// Text; a text of white space only is one blank.
    Text(String),
    /// `{{ expr }}`, with the expression trimmed.
    Interpolation(String),
}

/// A piece of a template as the contracts see it.
pub enum TokenView {
    Open { tag: Seq<char>, attrs: Seq<AttrView>, self_closing: bool },
    Close(Seq<char>),
    Text(Seq<char>),
    Interpolation(Seq<char>),
}

impl View for Token {
    type V = TokenView;

    open spec fn view(&self) -> TokenView {
        match self {
            Token::Open { tag, attrs, self_closing } => TokenView::Open {
                tag: tag@,
                attrs: attr_views(attrs@),
                self_closing: *self_closing,
            },
            Token::Close(tag) => TokenView::Close(tag@),
            Token::Text(t) => TokenView::Text(t@),
            Token::Interpolation(e) => TokenView::Interpolation(e@),
        }
    }
}

/// The views of the tokens of `tokens`, in order.
pub open spec fn token_views(tokens: Seq<Token>) -> Seq<TokenView> {
    Seq::new(tokens.len(), |i: int| tokens[i]@)
}

/// The piece that begins at `i`, and where the next begins. `</` begins a
/// closing tag: a name and, white space apart, a `>` if there is one. Any
/// other `<` begins an opening tag: a name and what `tag_rest` reads. `{{`
/// begins an interpolation, which the next `}}` ends. Anything else begins
/// a text, which the next `<` or `{{` ends.
pub open spec fn token_at(s: Seq<char>, i: int) -> (TokenView, int) {
    if s[i] == '<' {
        if i + 1 < s.len() && s[i + 1] == '/' {
            let e = ident_end(s, i + 2);
            let j = blank_end(s, e);
            (TokenView::Close(s.subrange(i + 2, e)), if 0 <= j < s.len() && s[j] == '>' {
                j + 1
            } else {
                j
            })
        } else {
            let e = ident_end(s, i + 1);
            let rest = tag_rest(s, e);
            (TokenView::Open { tag: s.subrange(i + 1, e), attrs: rest.0, self_closing: rest.1 }, rest.2)
        }
    } else if i + 1 < s.len() && s[i] == '{' && s[i + 1] == '{' {
        let e = braces_from(s, i + 2);
        (TokenView::Interpolation(trimmed(s.subrange(i + 2, e))), if e + 1 < s.len() {
            e + 2
        } else {
            e
        })
    } else {
        let e = text_end(s, i + 1);
        let t = s.subrange(i, e);
        (TokenView::Text(if all_space(t) {
            " "@
        } else {
            t
        }), e)
    }
}

/// The pieces of `s` from `i` on.
pub open spec fn tokens_from(s: Seq<char>, i: int) -> Seq<TokenView>
    decreases s.len() - i,
{
    if 0 <= i < s.len() {
        let (token, next) = token_at(s, i);
        if i < next <= s.len() {
            seq![token] + tokens_from(s, next)
        } else {
            seq![token]
        }
    } else {
        Seq::empty()
    }
}

/// The state of the tree builder after `node` has been handed to it: the
/// node becomes the last child of the innermost open element, or a root if
/// none is open.
pub open spec fn with_child(
    stack: Seq<TemplateView>,
    roots: Seq<TemplateView>,
    node: TemplateView,
) -> (Seq<TemplateView>, Seq<TemplateView>) {
    if stack.len() > 0 {
        match stack.last() {
            TemplateView::Element { tag, attrs, children, self_closing } => (
                stack.drop_last().push(
                    TemplateView::Element { tag, attrs, children: children.push(node), self_closing },
                ),
                roots,
            ),
            _ => (stack, roots.push(node)),
        }
    } else {
        (stack, roots.push(node))
    }
}

/// The tag of an element; the empty string for any other node.
pub open spec fn tag_of(node: TemplateView) -> Seq<char> {
    match node {
        TemplateView::Element { tag, .. } => tag,
        _ => Seq::empty(),
    }
}

/// What a closing tag `tag` does to the open elements: the innermost one
/// with that tag is closed, and those opened inside it are dropped with all
/// they hold; if none has that tag, all are dropped. Gives the closed
/// element, if any, and the elements that stay open.
pub open spec fn closed(stack: Seq<TemplateView>, tag: Seq<char>) -> (
    Option<TemplateView>,
    Seq<TemplateView>,
)
    decreases stack.len(),
{
    if stack.len() == 0 {
        (None, stack)
    } else if tag_of(stack.last()) == tag {
        (Some(stack.last()), stack.drop_last())
    } else {
        closed(stack.drop_last(), tag)
    }
}

/// The state of the tree builder after `token`.
pub open spec fn after_token(
    stack: Seq<TemplateView>,
    roots: Seq<TemplateView>,
    token: TokenView,
) -> (Seq<TemplateView>, Seq<TemplateView>) {
    match token {
        TokenView::Open { tag, attrs, self_closing } => {
            let node = TemplateView::Element { tag, attrs, children: Seq::empty(), self_closing };
            if self_closing {
                with_child(stack, roots, node)
            } else {
                (stack.push(node), roots)
            }
        },
        TokenView::Close(tag) => {
            let (found, rest) = closed(stack, tag);
            match found {
                Some(node) => with_child(rest, roots, node),
                None => (rest, roots),
            }
        },
        TokenView::Text(t) => with_child(stack, roots, TemplateView::Text(t)),
        TokenView::Interpolation(e) => with_child(stack, roots, TemplateView::Interpolation(e)),
    }
}

/// The state of the tree builder after the first `n` tokens.
pub open spec fn after_tokens(tokens: Seq<TokenView>, n: nat) -> (
    Seq<TemplateView>,
    Seq<TemplateView>,
)
    decreases n,
{
    if n == 0 || n > tokens.len() {
        (Seq::empty(), Seq::empty())
    } else {
        let prev = after_tokens(tokens, (n - 1) as nat);
        after_token(prev.0, prev.1, tokens[n - 1])
    }
}

/// The roots once the elements that are still open at the end have been
/// closed, the innermost first.
pub open spec fn drained(stack: Seq<TemplateView>, roots: Seq<TemplateView>) -> Seq<TemplateView>
    decreases stack.len(),
{
    if stack.len() == 0 {
        roots
    } else {
        let next = with_child(stack.drop_last(), roots, stack.last());
        if next.0.len() < stack.len() {
            drained(next.0, next.1)
        } else {
            roots
        }
    }
}

/// Whether a node is a text of white space only.
pub open spec fn is_blank_text(node: TemplateView) -> bool {
    match node {
        TemplateView::Text(t) => all_space(t),
        _ => false,
    }
}

/// The first `n` nodes of `roots` without the texts of white space only.
pub open spec fn pruned(roots: Seq<TemplateView>, n: nat) -> Seq<TemplateView>
    decreases n,
{
    if n == 0 || n > roots.len() {
        Seq::empty()
    } else {
        let rest = pruned(roots, (n - 1) as nat);
        if is_blank_text(roots[n - 1]) {
            rest
        } else {
            rest.push(roots[n - 1])
        }
    }
}

/// The trees of the tokens: the roots that the builder holds after all of
/// them, with the open elements closed and the blank texts among the roots
/// dropped.
pub open spec fn tree_of(tokens: Seq<TokenView>) -> Seq<TemplateView> {
    let state = after_tokens(tokens, tokens.len());
    let roots = drained(state.0, state.1);
    pruned(roots, roots.len())
}

/// The trees that the template `s` writes.
pub open spec fn parsed(s: Seq<char>) -> Seq<TemplateView> {
    tree_of(tokens_from(s, 0))
}

/// Whether `c` is a tag-name character.
fn is_ident(c: char) -> (b: bool)
    ensures
        b == is_ident_char(c),
{
    ('a' <= c && c <= 'z') || ('A' <= c && c <= 'Z') || ('0' <= c && c <= '9') || c == '_' || c
        == '-'
}

/// The first position from `i` on that holds no white space.
pub fn skip_ws(v: &Vec<char>, i: usize) -> (j: usize)
    requires
        i <= v@.len(),
    ensures
        j == blank_end(v@, i as int),
        i <= j <= v@.len(),
{
    let mut j: usize = i;
    while j < v.len() && (v[j] == ' ' || ('\t' <= v[j] && v[j] <= '\r'))
        invariant
            i <= j <= v@.len(),
            blank_end(v@, j as int) == blank_end(v@, i as int),
        decreases v@.len() - j,
    {
        j = j + 1;
    }
    j
}

/// The tag name at `i`, and where it ends.
pub fn read_ident(v: &Vec<char>, i: usize) -> (r: (String, usize))
    requires
        i <= v@.len(),
    ensures
        r.1 == ident_end(v@, i as int),
        i <= r.1 <= v@.len(),
        r.0@ == v@.subrange(i as int, r.1 as int),
{
    let mut j: usize = i;
    while j < v.len() && is_ident(v[j])
        invariant
            i <= j <= v@.len(),
            ident_end(v@, j as int) == ident_end(v@, i as int),
        decreases v@.len() - j,
    {
        j = j + 1;
    }
    (string_of_range(v, i, j), j)
}

/// The quoted value at `i`, and where reading goes on.
pub fn read_quoted(v: &Vec<char>, i: usize) -> (r: (Option<String>, usize))
    requires
        i <= v@.len(),
    ensures
        (crate::template_ast::opt_text(r.0), r.1 as int) == quoted_at(v@, i as int),
        i <= r.1 <= v@.len(),
        r.0 is Some ==> i < r.1,
{
    if i >= v.len() {
        return (None, i);
    }
    let quote = v[i];
    if quote != '"' && quote != '\'' {
        return (None, i);
    }
    let e = find(v, quote, i + 1);
    let value = string_of_range(v, i + 1, e);
    if e < v.len() {
        (Some(value), e + 1)
    } else {
        (Some(value), e)
    }
}

/// The name of a directive in its normal form.
pub fn normalize_directive_name(s: &Vec<char>) -> (r: String)
    ensures
        r@ == normalized(s@),
{
    let mut out: Vec<char> = Vec::new();
    let mut i: usize = 0;
    while i < s.len()
        invariant
            i <= s@.len(),
            out@ == dashed(s@, i as nat),
        decreases s@.len() - i,
    {
        let c = s[i];
        if c == '_' {
            out.push('-');
        } else if 'A' <= c && c <= 'Z' {
            out.push('-');
            out.push(((c as u8) + 32) as char);
        } else {
            out.push(c);
        }
        i = i + 1;
    }
    let mut compact: Vec<char> = Vec::new();
    let mut k: usize = 0;
    while k < out.len()
        invariant
            k <= out@.len(),
            compact@ == collapsed(out@, k as nat),
        decreases out@.len() - k,
    {
        let c = out[k];
        if !(c == '-' && compact.len() > 0 && compact[compact.len() - 1] == '-') {
            compact.push(c);
        }
        k = k + 1;
    }
    let mut a: usize = 0;
    while a < compact.len() && compact[a] == '-'
        invariant
            a <= compact@.len(),
            dash_end(compact@, a as int) == dash_end(compact@, 0),
        decreases compact@.len() - a,
    {
        a = a + 1;
    }
    let mut b: usize = compact.len();
    while b > a && compact[b - 1] == '-'
        invariant
            a <= b <= compact@.len(),
            dash_start(compact@, b as int, a as int) == dash_start(
                compact@,
                compact@.len() as int,
                a as int,
            ),
        decreases b,
    {
        b = b - 1;
    }
    string_of_range(&compact, a, b)
}

/// The attribute at `i`, and where reading goes on.
pub fn read_attribute(v: &Vec<char>, i: usize) -> (r: (Option<TemplateAttr>, usize))
    requires
        i <= v@.len(),
    ensures
        i <= r.1 <= v@.len(),
        r.0 is Some ==> i < r.1,
        r.1 == attribute_at(v@, i as int).1,
        match r.0 {
            Some(a) => attribute_at(v@, i as int).0 == Some(a@),
            None => attribute_at(v@, i as int).0 is None,
        },
{
    let mut e: usize = i;
    while e < v.len() && (is_ident(v[e]) || v[e] == ':' || v[e] == '@')
        invariant
            i <= e <= v@.len(),
            name_end(v@, e as int) == name_end(v@, i as int),
        decreases v@.len() - e,
    {
        e = e + 1;
    }
    if e == i {
        return (None, i);
    }
    let raw = copy_range(v, i, e);
    let j = skip_ws(v, e);
    let mut value: Option<String> = None;
    let mut next: usize = j;
    if j < v.len() && v[j] == '=' {
        let k = skip_ws(v, j + 1);
        let q = read_quoted(v, k);
        value = q.0;
        next = q.1;
    }
    let n = raw.len();
    let (kind, name) = if raw[0] == ':' {
        (AttrKind::Bind, string_of_range(&raw, 1, n))
    } else if raw[0] == '@' {
        (AttrKind::On, string_of_range(&raw, 1, n))
    } else if n > 1 && raw[0] == 'v' && raw[1] == '-' {
        (AttrKind::Directive, normalize_directive_name(&copy_range(&raw, 2, n)))
    } else {
        (AttrKind::Static, string_of(&raw))
    };
    (Some(TemplateAttr { name, value, kind }), next)
}

/// What stands in a tag from `i` on: its attributes, whether it closes
/// itself, and where reading goes on.
fn read_tag_rest(v: &Vec<char>, i: usize) -> (r: (Vec<TemplateAttr>, bool, usize))
    requires
        i <= v@.len(),
    ensures
        (attr_views(r.0@), r.1, r.2 as int) == tag_rest(v@, i as int),
        i <= r.2 <= v@.len(),
{
    let mut attrs: Vec<TemplateAttr> = Vec::new();
    let mut at: usize = i;
    let ghost total = tag_rest(v@, i as int);
    assert(attr_views(attrs@) + total.0 =~= total.0);
    loop
        invariant
            i <= at <= v@.len(),
            total == tag_rest(v@, i as int),
            attr_views(attrs@) + tag_rest(v@, at as int).0 == total.0,
            tag_rest(v@, at as int).1 == total.1,
            tag_rest(v@, at as int).2 == total.2,
        decreases v@.len() - at,
    {
        let j = skip_ws(v, at);
        if j >= v.len() {
            assert(attr_views(attrs@) =~= total.0);
            return (attrs, false, j);
        }
        if v[j] == '/' {
            let k = skip_ws(v, j + 1);
            assert(attr_views(attrs@) =~= total.0);
            if k < v.len() && v[k] == '>' {
                return (attrs, true, k + 1);
            }
            return (attrs, true, k);
        }
        if v[j] == '>' {
            assert(attr_views(attrs@) =~= total.0);
            return (attrs, false, j + 1);
        }
        let ghost before = attr_views(attrs@);
        let read = read_attribute(v, j);
        match read.0 {
            Some(attr) => {
                let ghost a = attr@;
                attrs.push(attr);
                proof {
                    assert(attr_views(attrs@) =~= before.push(a));
                    assert(before.push(a) + tag_rest(v@, read.1 as int).0 =~= before + (seq![a]
                        + tag_rest(v@, read.1 as int).0));
                }
                at = read.1;
            },
            None => {
                at = j + 1;
            },
        }
    }
}

/// The piece that begins at `i`, and where the next begins.
fn next_token(v: &Vec<char>, i: usize) -> (r: (Token, usize))
    requires
        i < v@.len(),
    ensures
        (r.0@, r.1 as int) == token_at(v@, i as int),
        i < r.1 <= v@.len(),
{
    let n = v.len();
    if v[i] == '<' {
        if n - i > 1 && v[i + 1] == '/' {
            let name = read_ident(v, i + 2);
            let j = skip_ws(v, name.1);
            if j < v.len() && v[j] == '>' {
                (Token::Close(name.0), j + 1)
            } else {
                (Token::Close(name.0), j)
            }
        } else {
            let name = read_ident(v, i + 1);
            let rest = read_tag_rest(v, name.1);
            (Token::Open { tag: name.0, attrs: rest.0, self_closing: rest.1 }, rest.2)
        }
    } else if n - i > 1 && v[i] == '{' && v[i + 1] == '{' {
        let start = i + 2;
        let mut e: usize = start;
        while n - e > 1 && !(v[e] == '}' && v[e + 1] == '}')
            invariant
                n == v@.len(),
                start <= e <= v@.len(),
                braces_from(v@, e as int) == braces_from(v@, start as int),
            decreases v@.len() - e,
        {
            e = e + 1;
        }
        let expr = string_of(&trim(&copy_range(v, start, e)));
        if n - e > 1 {
            (Token::Interpolation(expr), e + 2)
        } else {
            (Token::Interpolation(expr), e)
        }
    } else {
        let mut e: usize = i + 1;
        while e < n && v[e] != '<' && !(n - e > 1 && v[e] == '{' && v[e + 1] == '{')
            invariant
                n == v@.len(),
                i < e <= v@.len(),
                text_end(v@, e as int) == text_end(v@, i + 1),
            decreases v@.len() - e,
        {
            e = e + 1;
        }
        let piece = copy_range(v, i, e);
        if is_all_ws(&piece) {
            (Token::Text(" ".to_owned()), e)
        } else {
            (Token::Text(string_of(&piece)), e)
        }
    }
}

/// The pieces of the template `v`.
pub fn tokenize(v: &Vec<char>) -> (tokens: Vec<Token>)
    ensures
        token_views(tokens@) == tokens_from(v@, 0),
{
    let mut tokens: Vec<Token> = Vec::new();
    let mut i: usize = 0;
    assert(token_views(tokens@) + tokens_from(v@, 0) =~= tokens_from(v@, 0));
    while i < v.len()
        invariant
            i <= v@.len(),
            token_views(tokens@) + tokens_from(v@, i as int) == tokens_from(v@, 0),
        decreases v@.len() - i,
    {
        let ghost before = token_views(tokens@);
        let t = next_token(v, i);
        let ghost tv = t.0@;
        tokens.push(t.0);
        proof {
            assert(token_views(tokens@) =~= before.push(tv));
            assert(before.push(tv) + tokens_from(v@, t.1 as int) =~= before + (seq![tv]
                + tokens_from(v@, t.1 as int)));
        }
        i = t.1;
    }
    assert(token_views(tokens@) + tokens_from(v@, i as int) =~= token_views(tokens@));
    tokens
}

/// An element that is still open.
struct Frame {
    tag: String,
    attrs: Vec<TemplateAttr>,
    children: Vec<Node>,
}

impl View for Frame {
    type V = TemplateView;

    closed spec fn view(&self) -> TemplateView {
        TemplateView::Element {
            tag: self.tag@,
            attrs: attr_views(self.attrs@),
            children: node_views(self.children@),
            self_closing: false,
        }
    }
}

/// The views of the open elements, the outermost first.
spec fn frame_views(frames: Seq<Frame>) -> Seq<TemplateView> {
    Seq::new(frames.len(), |i: int| frames[i]@)
}

/// Hands `node` to the tree builder.
fn push_child(stack: &mut Vec<Frame>, roots: &mut Vec<Node>, node: Node)
    ensures
        (frame_views(final(stack)@), node_views(final(roots)@)) == with_child(
            frame_views(old(stack)@),
            node_views(old(roots)@),
            node@,
        ),
        final(stack)@.len() == old(stack)@.len(),
{
    let ghost s0 = frame_views(stack@);
    let ghost r0 = node_views(roots@);
    match stack.pop() {
        Some(top) => {
            let ghost kids = node_views(top.children@);
            let ghost popped = frame_views(stack@);
            assert(popped =~= s0.drop_last());
            assert(s0.last() == top@);
            let mut f = top;
            f.children.push(node);
            assert(node_views(f.children@) =~= kids.push(node@));
            let ghost fv = f@;
            stack.push(f);
            assert(frame_views(stack@) =~= popped.push(fv));
            assert(node_views(roots@) =~= r0);
        },
        None => {
            roots.push(node);
            assert(node_views(roots@) =~= r0.push(node@));
            assert(frame_views(stack@) =~= s0);
        },
    }
}

/// The element that a frame becomes when it is closed.
fn node_of(frame: Frame) -> (node: Node)
    ensures
        node@ == frame@,
{
    Node::Element {
        tag: frame.tag,
        attrs: frame.attrs,
        children: frame.children,
        self_closing: false,
    }
}

/// Closes the innermost open element with the tag `tag`.
fn close_tag(stack: &mut Vec<Frame>, tag: &str) -> (found: Option<Frame>)
    ensures
        closed(frame_views(old(stack)@), tag@).1 == frame_views(final(stack)@),
        match found {
            Some(f) => closed(frame_views(old(stack)@), tag@).0 == Some(f@),
            None => closed(frame_views(old(stack)@), tag@).0 is None,
        },
{
    let ghost goal = closed(frame_views(stack@), tag@);
    loop
        invariant
            goal == closed(frame_views(old(stack)@), tag@),
            closed(frame_views(stack@), tag@) == goal,
        decreases stack@.len(),
    {
        let ghost s0 = frame_views(stack@);
        match stack.pop() {
            None => {
                assert(frame_views(stack@) =~= s0);
                return None;
            },
            Some(f) => {
                assert(frame_views(stack@) =~= s0.drop_last());
                assert(s0.last() == f@);
                if f.tag.as_str().eq(tag) {
                    return Some(f);
                }
            },
        }
    }
}

/// The trees of the tokens.
pub fn build_tree(tokens: &Vec<Token>) -> (roots: Vec<Node>)
    ensures
        node_views(roots@) == tree_of(token_views(tokens@)),
{
    let ghost tv = token_views(tokens@);
    let mut stack: Vec<Frame> = Vec::new();
    let mut roots: Vec<Node> = Vec::new();
    let mut i: usize = 0;
    assert(frame_views(stack@) =~= Seq::<TemplateView>::empty());
    assert(node_views(roots@) =~= Seq::<TemplateView>::empty());
    while i < tokens.len()
        invariant
            i <= tokens@.len(),
            tv == token_views(tokens@),
            (frame_views(stack@), node_views(roots@)) == after_tokens(tv, i as nat),
        decreases tokens@.len() - i,
    {
        assert(tv[i as int] == tokens@[i as int]@);
        let ghost s0 = frame_views(stack@);
        let ghost r0 = node_views(roots@);
        match &tokens[i] {
            Token::Open { tag, attrs, self_closing } => {
                if *self_closing {
                    let node = Node::Element {
                        tag: tag.clone(),
                        attrs: clone_attrs(attrs),
                        children: Vec::new(),
                        self_closing: true,
                    };
                    assert(node_views(Seq::<Node>::empty()) =~= Seq::<TemplateView>::empty());
                    push_child(&mut stack, &mut roots, node);
                } else {
                    let frame = Frame {
                        tag: tag.clone(),
                        attrs: clone_attrs(attrs),
                        children: Vec::new(),
                    };
                    assert(node_views(frame.children@) =~= Seq::<TemplateView>::empty());
                    let ghost fv = frame@;
                    stack.push(frame);
                    assert(frame_views(stack@) =~= s0.push(fv));
                }
            },
            Token::Close(tag) => {
                match close_tag(&mut stack, tag.as_str()) {
                    Some(f) => {
                        push_child(&mut stack, &mut roots, node_of(f));
                    },
                    None => {},
                }
            },
            Token::Text(t) => {
                push_child(&mut stack, &mut roots, Node::Text(t.clone()));
            },
            Token::Interpolation(e) => {
                push_child(&mut stack, &mut roots, Node::Interpolation(e.clone()));
            },
        }
        i = i + 1;
    }
    let ghost state = after_tokens(tv, tv.len());
    loop
        invariant
            drained(frame_views(stack@), node_views(roots@)) == drained(state.0, state.1),
        ensures
            node_views(roots@) == drained(state.0, state.1),
        decreases stack@.len(),
    {
        let ghost s0 = frame_views(stack@);
        match stack.pop() {
            None => {
                assert(frame_views(stack@) =~= s0);
                break ;
            },
            Some(f) => {
                assert(frame_views(stack@) =~= s0.drop_last());
                assert(s0.last() == f@);
                push_child(&mut stack, &mut roots, node_of(f));
            },
        }
    }
    let ghost all = node_views(roots@);
    let mut kept: Vec<Node> = Vec::new();
    let mut k: usize = 0;
    assert(node_views(kept@) =~= pruned(all, 0));
    while k < roots.len()
        invariant
            k <= roots@.len(),
            all == node_views(roots@),
            node_views(kept@) == pruned(all, k as nat),
        decreases roots@.len() - k,
    {
        assert(all[k as int] == roots@[k as int]@);
        let ghost before = node_views(kept@);
        let blank = match &roots[k] {
            Node::Text(t) => is_all_ws(&chars_of(t.as_str())),
            _ => false,
        };
        if !blank {
            kept.push(roots[k].clone());
            assert(node_views(kept@) =~= before.push(all[k as int]));
        }
        k = k + 1;
    }
    kept
}

/// Reads a template: nested elements, also unclosed and self-closing ones
/// (`<input/>`), with static (`class="x"`), bound (`:value="expr"`), event
/// (`@click="f"`) and directive (`v-if="c"`) attributes, texts, and
/// `{{ interpolation }}`s. Every text is read; none is refused.
pub fn parse_template_to_ast(input: &str) -> (r: Result<Vec<Node>, String>)
    ensures
        r matches Ok(nodes) && node_views(nodes@) == parsed(input@),
{
    let text = chars_of(input);
    let tokens = tokenize(&text);
    Ok(build_tree(&tokens))
}

} // verus!
