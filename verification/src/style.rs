//! A small style sheet language: rules for a tag or a class, optionally
//! only while hovered, applied to a tree as inline `style` attributes.

use crate::dom::{
    lemma_with_attr, lookup, unique_keys, views, with_attr, Attrs, NodeView, Props, VNode,
};
use crate::text::{
    chars_of, copy_range, is_space, is_whitespace, pieces, push_chars, same, split, split_first,
    split_once, string_of, trim, trimmed,
};
use vstd::prelude::*;

verus! {

/// What a selector names: a tag, or a class.
#[derive(Debug, Clone, Copy, PartialEq, Eq, Structural)]
pub enum SimpleSelectorKind {
    Tag,
    Class,
}

/// A selector: a tag or a class, optionally only while hovered.
#[derive(Debug, Clone, PartialEq)]
pub struct SimpleSelector {
    pub kind: SimpleSelectorKind,
    pub name: String,
    pub hover: bool,
}

/// A rule: a selector with its declarations.
#[derive(Debug, Clone, PartialEq)]
pub struct Rule {
    pub selector: SimpleSelector,
    pub decls: Props,
}

/// A style sheet: rules in the order of the text.
#[derive(Debug, Default, Clone, PartialEq)]
pub struct Stylesheet {
    pub rules: Vec<Rule>,
}

/// A selector as the contracts see it.
pub struct SelectorView {
    pub kind: SimpleSelectorKind,
    pub name: Seq<char>,
    pub hover: bool,
}

/// A rule as the contracts see it.
pub struct RuleView {
    pub selector: SelectorView,
    pub decls: Attrs,
}

impl View for SimpleSelector {
    type V = SelectorView;

    open spec fn view(&self) -> SelectorView {
        SelectorView { kind: self.kind, name: self.name@, hover: self.hover }
    }
}

impl View for Rule {
    type V = RuleView;

    open spec fn view(&self) -> RuleView {
        RuleView { selector: self.selector@, decls: self.decls@ }
    }
}

impl View for Stylesheet {
    type V = Seq<RuleView>;

    open spec fn view(&self) -> Seq<RuleView> {
        Seq::new(self.rules@.len(), |i: int| self.rules@[i]@)
    }
}

/// `acc` after the declaration `decl`: a declaration `key: value` sets the
/// key to the value, both trimmed; an empty one, or one without a colon,
/// changes nothing.
pub open spec fn add_decl(acc: Attrs, decl: Seq<char>) -> Attrs {
    let d = trimmed(decl);
    if d.len() == 0 {
        acc
    } else {
        match split_first(d, ':') {
            Some((k, v)) => with_attr(acc, trimmed(k), trimmed(v)),
            None => acc,
        }
    }
}

/// `acc` after the first `n` declarations of `parts`, in order.
pub open spec fn decls_into(acc: Attrs, parts: Seq<Seq<char>>, n: nat) -> Attrs
    decreases n,
{
    if n == 0 || n > parts.len() {
        acc
    } else {
        add_decl(decls_into(acc, parts, (n - 1) as nat), parts[n - 1])
    }
}

/// `acc` after the declarations of `body`, which a semicolon separates; a
/// later declaration of a key overrides an earlier one.
pub open spec fn parse_decls_into(acc: Attrs, body: Seq<char>) -> Attrs {
    decls_into(acc, pieces(body, ';'), pieces(body, ';').len())
}

/// The selector that `sel` writes: what stands before a colon, trimmed, is
/// the name, and the selector holds only while hovered if `hover` stands
/// behind the colon; a name that begins with a dot is a class, named by the
/// rest, trimmed; any other name is a tag.
pub open spec fn parse_selector(sel: Seq<char>) -> SelectorView {
    let (name_raw, hover) = match split_first(sel, ':') {
        Some((base, pseudo)) => (trimmed(base), trimmed(pseudo) == "hover"@),
        None => (sel, false),
    };
    if name_raw.len() > 0 && name_raw[0] == '.' {
        SelectorView {
            kind: SimpleSelectorKind::Class,
            name: trimmed(name_raw.subrange(1, name_raw.len() as int)),
            hover,
        }
    } else {
        SelectorView { kind: SimpleSelectorKind::Tag, name: name_raw, hover }
    }
}

/// The rule that `block` writes, the text of a rule up to its closing brace:
/// a selector, an opening brace and declarations. A block that is empty, has
/// no opening brace or declares nothing gives no rule.
pub open spec fn parse_block(block: Seq<char>) -> Option<RuleView> {
    let b = trimmed(block);
    if b.len() == 0 {
        None
    } else {
        match split_first(b, '{') {
            None => None,
            Some((sel, body)) => {
                let decls = parse_decls_into(Seq::empty(), trimmed(body));
                if decls.len() == 0 {
                    None
                } else {
                    Some(RuleView { selector: parse_selector(trimmed(sel)), decls })
                }
            },
        }
    }
}

/// The rules that the first `n` blocks write, in order.
pub open spec fn parse_blocks(blocks: Seq<Seq<char>>, n: nat) -> Seq<RuleView>
    decreases n,
{
    if n == 0 || n > blocks.len() {
        Seq::empty()
    } else {
        let rest = parse_blocks(blocks, (n - 1) as nat);
        match parse_block(blocks[n - 1]) {
            Some(rule) => rest.push(rule),
            None => rest,
        }
    }
}

/// The rules that `css` writes: one for each block that a closing brace ends
/// and that gives a rule.
pub open spec fn parse_sheet(css: Seq<char>) -> Seq<RuleView> {
    parse_blocks(pieces(css, '}'), pieces(css, '}').len())
}

/// Setting declarations keeps the keys distinct.
pub proof fn decls_keep_keys_distinct(acc: Attrs, parts: Seq<Seq<char>>, n: nat)
    requires
        unique_keys(acc),
    ensures
        unique_keys(decls_into(acc, parts, n)),
    decreases n,
{
    if n == 0 || n > parts.len() {
    } else {
        decls_keep_keys_distinct(acc, parts, (n - 1) as nat);
        let prev = decls_into(acc, parts, (n - 1) as nat);
        let d = trimmed(parts[n - 1]);
        if d.len() > 0 {
            match split_first(d, ':') {
                Some((k, v)) => {
                    lemma_with_attr(prev, trimmed(k), trimmed(v));
                },
                None => {},
            }
        }
    }
}

/// Sets in `acc` what the declarations of `body` declare.
pub fn parse_decls(acc: Props, body: &Vec<char>) -> (out: Props)
    ensures
        out@ == parse_decls_into(acc@, body@),
{
    let parts = split(body, ';');
    let ghost specs = pieces(body@, ';');
    let ghost start = acc@;
    let mut out = acc;
    let mut i: usize = 0;
    while i < parts.len()
        invariant
            i <= parts@.len(),
            parts@.len() == specs.len(),
            forall|j: int| 0 <= j < parts@.len() ==> (#[trigger] parts@[j])@ == specs[j],
            out@ == decls_into(start, specs, i as nat),
        decreases parts@.len() - i,
    {
        let d = trim(&parts[i]);
        if d.len() > 0 {
            match split_once(&d, ':') {
                Some((k, v)) => {
                    let key = string_of(&trim(&k));
                    let value = string_of(&trim(&v));
                    out = out.set(key.as_str(), value.as_str());
                },
                None => {},
            }
        }
        i = i + 1;
    }
    out
}

/// The selector that `sel` writes.
fn selector_of(sel: &Vec<char>) -> (selector: SimpleSelector)
    ensures
        selector@ == parse_selector(sel@),
{
    let (name_raw, hover) = match split_once(sel, ':') {
        Some((base, pseudo)) => {
            let p = trim(&pseudo);
            let hover_word = chars_of("hover");
            (trim(&base), same(&p, &hover_word))
        },
        None => (copy_range(sel, 0, sel.len()), false),
    };
    assert(sel@.subrange(0, sel@.len() as int) =~= sel@);
    if name_raw.len() > 0 && name_raw[0] == '.' {
        let rest = copy_range(&name_raw, 1, name_raw.len());
        SimpleSelector {
            kind: SimpleSelectorKind::Class,
            name: string_of(&trim(&rest)),
            hover,
        }
    } else {
        SimpleSelector { kind: SimpleSelectorKind::Tag, name: string_of(&name_raw), hover }
    }
}

/// The rule that `block` writes, if it writes one.
fn rule_of(block: &Vec<char>) -> (rule: Option<Rule>)
    ensures
        match rule {
            Some(r) => parse_block(block@) == Some(r@),
            None => parse_block(block@).is_none(),
        },
{
    let b = trim(block);
    if b.len() == 0 {
        return None;
    }
    match split_once(&b, '{') {
        None => None,
        Some((sel, body)) => {
            let decls = parse_decls(Props::new(), &trim(&body));
            if decls.len() == 0 {
                None
            } else {
                Some(Rule { selector: selector_of(&trim(&sel)), decls })
            }
        },
    }
}

impl Stylesheet {
    /// Reads a style sheet: rules of the form `tag { key: value; }` and
    /// `.class { key: value; }`, either with `:hover` behind the name; what
    /// is not of this form is passed over.
    pub fn parse(css: &str) -> (sheet: Stylesheet)
        ensures
            sheet@ == parse_sheet(css@),
    {
        let text = chars_of(css);
        let blocks = split(&text, '}');
        let ghost specs = pieces(css@, '}');
        let mut rules: Vec<Rule> = Vec::new();
        let mut i: usize = 0;
        while i < blocks.len()
            invariant
                i <= blocks@.len(),
                blocks@.len() == specs.len(),
                forall|j: int| 0 <= j < blocks@.len() ==> (#[trigger] blocks@[j])@ == specs[j],
                Seq::new(rules@.len(), |k: int| rules@[k]@) == parse_blocks(specs, i as nat),
            decreases blocks@.len() - i,
        {
            let ghost before = Seq::new(rules@.len(), |k: int| rules@[k]@);
            match rule_of(&blocks[i]) {
                Some(rule) => {
                    let ghost rv = rule@;
                    rules.push(rule);
                    assert(Seq::new(rules@.len(), |k: int| rules@[k]@) =~= before.push(rv));
                },
                None => {},
            }
            i = i + 1;
        }
        Stylesheet { rules }
    }
}

/// The characters of `s` from `i` up to `j` are a word: a longest run of
/// characters that are no white space.
pub open spec fn is_word(s: Seq<char>, i: int, j: int) -> bool {
    &&& 0 <= i < j <= s.len()
    &&& forall|k: int| i <= k < j ==> !is_space(#[trigger] s[k])
    &&& (i == 0 || is_space(s[i - 1]))
    &&& (j == s.len() || is_space(s[j]))
}

/// One of the words of `classes` is `name`.
pub open spec fn has_class(classes: Seq<char>, name: Seq<char>) -> bool {
    exists|i: int, j: int| #[trigger] is_word(classes, i, j) && classes.subrange(i, j) == name
}

/// Whether the selector holds of an element with the tag `tag`, the `class`
/// attribute `class_attr`, hovered or not: never while it asks for hovering
/// and the element is not hovered; else a tag selector holds if its name is
/// the tag, a class selector if its name is one of the words of the `class`
/// attribute.
pub open spec fn selects(
    sel: SelectorView,
    tag: Seq<char>,
    class_attr: Option<Seq<char>>,
    hovered: bool,
) -> bool {
    if sel.hover && !hovered {
        false
    } else {
        match sel.kind {
            SimpleSelectorKind::Tag => sel.name == tag,
            SimpleSelectorKind::Class => match class_attr {
                Some(classes) => has_class(classes, sel.name),
                None => false,
            },
        }
    }
}

/// Whether one of the words of `classes` is `name`.
pub fn class_listed(classes: &Vec<char>, name: &Vec<char>) -> (found: bool)
    ensures
        found == has_class(classes@, name@),
{
    let n = classes.len();
    let mut i: usize = 0;
    loop
        invariant
            i <= n,
            n == classes@.len(),
            forall|a: int, b: int|
                #[trigger] is_word(classes@, a, b) && a < i ==> classes@.subrange(a, b) != name@,
            i == 0 || i == n || is_space(classes@[i as int]),
        decreases n - i,
    {
        let mut a: usize = i;
        while a < n && is_whitespace(classes[a])
            invariant
                i <= a <= n,
                n == classes@.len(),
                forall|k: int| i <= k < a ==> is_space(#[trigger] classes@[k]),
            decreases n - a,
        {
            a = a + 1;
        }
        if a >= n {
            proof {
                assert forall|x: int, y: int| #[trigger]
                    is_word(classes@, x, y) implies classes@.subrange(x, y) != name@ by {
                    if x >= i {
                        assert(is_space(classes@[x]));
                    }
                }
            }
            return false;
        }
        let mut b: usize = a;
        while b < n && !is_whitespace(classes[b])
            invariant
                a <= b <= n,
                n == classes@.len(),
                forall|k: int| a <= k < b ==> !is_space(#[trigger] classes@[k]),
            decreases n - b,
        {
            b = b + 1;
        }
        let word = copy_range(classes, a, b);
        proof {
            assert(a < b);
            assert(is_word(classes@, a as int, b as int)) by {
                if a > 0 {
                    if a > i {
                        assert(is_space(classes@[a - 1]));
                    } else {
                        assert(is_space(classes@[i as int]) || i == 0);
                    }
                }
            }
        }
        if same(&word, name) {
            return true;
        }
        proof {
            assert forall|x: int, y: int| #[trigger]
                is_word(classes@, x, y) && x < b implies classes@.subrange(x, y) != name@ by {
                if x >= i {
                    if x < a {
                        assert(is_space(classes@[x]));
                    } else if x > a {
                        assert(!is_space(classes@[x - 1]));
                    } else {
                        if y < b {
                            assert(!is_space(classes@[y]));
                        } else if y > b {
                            assert(is_space(classes@[b as int]));
                        }
                    }
                }
            }
        }
        i = b;
    }
}

/// Whether the selector holds of an element with the tag `tag`, the `class`
/// attribute `class_attr`, hovered or not.
pub fn matches_selector(
    sel: &SimpleSelector,
    tag: &str,
    class_attr: Option<&str>,
    hovered: bool,
) -> (b: bool)
    ensures
        b == selects(
            sel@,
            tag@,
            match class_attr {
                Some(c) => Some(c@),
                None => None,
            },
            hovered,
        ),
{
    if sel.hover && !hovered {
        return false;
    }
    match sel.kind {
        SimpleSelectorKind::Tag => sel.name.as_str().eq(tag),
        SimpleSelectorKind::Class => {
            match class_attr {
                Some(classes) => class_listed(&chars_of(classes), &chars_of(sel.name.as_str())),
                None => false,
            }
        },
    }
}

/// `a` stands before `b` in the order of a dictionary whose alphabet is
/// ordered by character code, decided from position `i` on.
pub open spec fn less_from(a: Seq<char>, b: Seq<char>, i: int) -> bool
    decreases a.len() - i,
{
    if i < 0 || i >= b.len() {
        false
    } else if i >= a.len() {
        true
    } else if a[i] != b[i] {
        (a[i] as u32) < (b[i] as u32)
    } else {
        less_from(a, b, i + 1)
    }
}

/// The first position from `i` on whose key does not stand before `key`.
pub open spec fn rank_from(sorted: Attrs, key: Seq<char>, i: int) -> int
    decreases sorted.len() - i,
{
    if 0 <= i < sorted.len() && less_from(sorted[i].0, key, 0) {
        rank_from(sorted, key, i + 1)
    } else {
        i
    }
}

/// The first `n` entries of `attrs`, each put before the first entry whose
/// key does not stand before its own: ordered by key, where the keys of
/// `attrs` are distinct.
pub open spec fn sorted_by_key(attrs: Attrs, n: nat) -> Attrs
    decreases n,
{
    if n == 0 || n > attrs.len() {
        Seq::empty()
    } else {
        let rest = sorted_by_key(attrs, (n - 1) as nat);
        rest.insert(rank_from(rest, attrs[n - 1].0, 0), attrs[n - 1])
    }
}

/// The first `n` declarations of `entries` as text: `key: value;` for each,
/// with one blank between two.
pub open spec fn render_style(entries: Attrs, n: nat) -> Seq<char>
    decreases n,
{
    if n == 0 || n > entries.len() {
        Seq::empty()
    } else {
        render_style(entries, (n - 1) as nat) + (if n > 1 {
            " "@
        } else {
            Seq::empty()
        }) + entries[n - 1].0 + ": "@ + entries[n - 1].1 + ";"@
    }
}

/// `acc` after each of the first `n` entries of `entries` has been set.
pub open spec fn set_all(acc: Attrs, entries: Attrs, n: nat) -> Attrs
    decreases n,
{
    if n == 0 || n > entries.len() {
        acc
    } else {
        with_attr(set_all(acc, entries, (n - 1) as nat), entries[n - 1].0, entries[n - 1].1)
    }
}

/// The inline style of an element whose `style` attribute is `existing` and
/// to which the declarations `new_map` apply: the declarations of the
/// attribute, overridden by those of `new_map`, ordered by key.
pub open spec fn merged_style(existing: Option<Seq<char>>, new_map: Attrs) -> Seq<char> {
    let base = match existing {
        Some(s) => parse_decls_into(Seq::empty(), s),
        None => Seq::empty(),
    };
    let merged = set_all(base, new_map, new_map.len());
    render_style(sorted_by_key(merged, merged.len()), merged.len())
}

/// Sets in `acc` each entry of `entries`.
pub fn set_each(acc: Props, entries: &Props) -> (out: Props)
    ensures
        out@ == set_all(acc@, entries@, entries@.len()),
{
    let ghost start = acc@;
    let mut out = acc;
    let n = entries.len();
    let mut i: usize = 0;
    while i < n
        invariant
            i <= n,
            n == entries@.len(),
            out@ == set_all(start, entries@, i as nat),
        decreases n - i,
    {
        out = out.set(entries.key_at(i).as_str(), entries.value_at(i).as_str());
        i = i + 1;
    }
    out
}

/// Whether `a` stands before `b` in the order by character code.
pub fn less(a: &Vec<char>, b: &Vec<char>) -> (r: bool)
    ensures
        r == less_from(a@, b@, 0),
{
    let mut i: usize = 0;
    while i < a.len() && i < b.len() && a[i] == b[i]
        invariant
            i <= a@.len(),
            i <= b@.len(),
            less_from(a@, b@, i as int) == less_from(a@, b@, 0),
        decreases a@.len() - i,
    {
        i = i + 1;
    }
    if i >= b.len() {
        false
    } else if i >= a.len() {
        true
    } else {
        (a[i] as u32) < (b[i] as u32)
    }
}

/// The entries of a list of pairs of character vectors.
pub open spec fn pairs_view(pairs: Seq<(Vec<char>, Vec<char>)>) -> Attrs {
    Seq::new(pairs.len(), |i: int| (pairs[i].0@, pairs[i].1@))
}

/// The entries of `attrs`, ordered by key.
fn sort_entries(attrs: &Props) -> (sorted: Vec<(Vec<char>, Vec<char>)>)
    ensures
        pairs_view(sorted@) == sorted_by_key(attrs@, attrs@.len()),
        ordered(pairs_view(sorted@)),
{
    let mut sorted: Vec<(Vec<char>, Vec<char>)> = Vec::new();
    let n = attrs.len();
    proof {
        sorted_is_ordered(attrs@, attrs@.len());
    }
    let mut i: usize = 0;
    assert(pairs_view(sorted@) =~= sorted_by_key(attrs@, 0));
    while i < n
        invariant
            i <= n,
            n == attrs@.len(),
            pairs_view(sorted@) == sorted_by_key(attrs@, i as nat),
        decreases n - i,
    {
        let key = chars_of(attrs.key_at(i).as_str());
        let value = chars_of(attrs.value_at(i).as_str());
        let ghost before = pairs_view(sorted@);
        let mut p: usize = 0;
        while p < sorted.len() && less(&sorted[p].0, &key)
            invariant
                p <= sorted@.len(),
                before == pairs_view(sorted@),
                rank_from(before, key@, p as int) == rank_from(before, key@, 0),
            decreases sorted@.len() - p,
        {
            assert(before[p as int].0 == sorted@[p as int].0@);
            p = p + 1;
        }
        proof {
            if p < sorted@.len() {
                assert(before[p as int].0 == sorted@[p as int].0@);
            }
        }
        sorted.insert(p, (key, value));
        assert(pairs_view(sorted@) =~= before.insert(p as int, (key@, value@)));
        i = i + 1;
    }
    sorted
}

/// The inline style of an element whose `style` attribute is `existing` and
/// to which the declarations `new_map` apply.
pub fn merge_styles(existing: Option<&str>, new_map: &Props) -> (out: String)
    ensures
        out@ == merged_style(
            match existing {
                Some(s) => Some(s@),
                None => None,
            },
            new_map@,
        ),
{
    let base = match existing {
        Some(s) => parse_decls(Props::new(), &chars_of(s)),
        None => Props::new(),
    };
    let merged = set_each(base, new_map);
    let sorted = sort_entries(&merged);
    let ghost entries = pairs_view(sorted@);
    let mut out = String::new();
    let mut i: usize = 0;
    assert(out@ =~= render_style(entries, 0));
    while i < sorted.len()
        invariant
            i <= sorted@.len(),
            entries == pairs_view(sorted@),
            out@ == render_style(entries, i as nat),
        decreases sorted@.len() - i,
    {
        let ghost before = out@;
        if i > 0 {
            out.append(" ");
        }
        push_chars(&mut out, &sorted[i].0);
        out.append(": ");
        push_chars(&mut out, &sorted[i].1);
        out.append(";");
        proof {
            assert(entries[i as int] == (sorted@[i as int].0@, sorted@[i as int].1@));
            assert(out@ =~= render_style(entries, (i + 1) as nat));
        }
        i = i + 1;
    }
    proof {
        assert(entries.len() == merged@.len()) by {
            sorted_keeps_length(merged@, merged@.len());
        }
    }
    out
}

/// Ordering by key keeps the number of entries.
pub proof fn sorted_keeps_length(attrs: Attrs, n: nat)
    requires
        n <= attrs.len(),
    ensures
        sorted_by_key(attrs, n).len() == n,
    decreases n,
{
    if n > 0 {
        sorted_keeps_length(attrs, (n - 1) as nat);
        let rest = sorted_by_key(attrs, (n - 1) as nat);
        rank_in_range(rest, attrs[n - 1].0, 0);
    }
}

/// A rank lies within the list.
pub proof fn rank_in_range(sorted: Attrs, key: Seq<char>, i: int)
    requires
        0 <= i <= sorted.len(),
    ensures
        i <= rank_from(sorted, key, i) <= sorted.len(),
    decreases sorted.len() - i,
{
    if i < sorted.len() && less_from(sorted[i].0, key, 0) {
        rank_in_range(sorted, key, i + 1);
    }
}

/// Every entry between `i` and the rank has a key that stands before `key`,
/// and the entry at the rank, if there is one, has not.
proof fn rank_splits(sorted: Attrs, key: Seq<char>, i: int)
    requires
        0 <= i <= sorted.len(),
    ensures
        forall|j: int|
            i <= j < rank_from(sorted, key, i) ==> less_from((#[trigger] sorted[j]).0, key, 0),
        rank_from(sorted, key, i) < sorted.len() ==> !less_from(
            sorted[rank_from(sorted, key, i)].0,
            key,
            0,
        ),
    decreases sorted.len() - i,
{
    rank_in_range(sorted, key, i);
    if i < sorted.len() && less_from(sorted[i].0, key, 0) {
        rank_splits(sorted, key, i + 1);
    }
}

/// The order by character code is transitive.
pub proof fn less_is_transitive(a: Seq<char>, b: Seq<char>, c: Seq<char>, i: int)
    requires
        0 <= i,
        less_from(a, b, i),
        less_from(b, c, i),
    ensures
        less_from(a, c, i),
    decreases a.len() - i,
{
    if i < a.len() && a[i] == b[i] && b[i] == c[i] {
        less_is_transitive(a, b, c, i + 1);
    }
}

/// Of two different strings that agree before position `i`, one stands
/// before the other.
pub proof fn less_is_total(a: Seq<char>, b: Seq<char>, i: int)
    requires
        0 <= i <= a.len(),
        i <= b.len(),
        forall|k: int| 0 <= k < i ==> a[k] == b[k],
        a != b,
    ensures
        less_from(a, b, i) || less_from(b, a, i),
    decreases a.len() - i,
{
    if i < a.len() && i < b.len() {
        if a[i] == b[i] {
            less_is_total(a, b, i + 1);
        } else {
            vstd::utf8::char_u32_cast(a[i], a[i] as u32);
            vstd::utf8::char_u32_cast(b[i], b[i] as u32);
        }
    } else if i == a.len() && i == b.len() {
        assert(a =~= b);
    }
}

/// No string stands before itself.
pub proof fn less_is_irreflexive(a: Seq<char>, i: int)
    requires
        0 <= i,
    ensures
        !less_from(a, a, i),
    decreases a.len() - i,
{
    if i < a.len() {
        less_is_irreflexive(a, i + 1);
    }
}

/// Each entry's key stands before the key of every later entry.
pub open spec fn ordered(entries: Attrs) -> bool {
    forall|i: int, j: int|
        0 <= i < j < entries.len() ==> less_from(
            (#[trigger] entries[i]).0,
            (#[trigger] entries[j]).0,
            0,
        )
}

/// Ordering the first `n` entries of a list with distinct keys gives those
/// same entries, each key standing before the next.
pub proof fn sorted_is_ordered(attrs: Attrs, n: nat)
    requires
        unique_keys(attrs),
        n <= attrs.len(),
    ensures
        sorted_by_key(attrs, n).len() == n,
        ordered(sorted_by_key(attrs, n)),
        forall|j: int| 0 <= j < n ==> sorted_by_key(attrs, n).contains(#[trigger] attrs[j]),
        forall|j: int|
            0 <= j < n ==> attrs.take(n as int).contains(#[trigger] sorted_by_key(attrs, n)[j]),
    decreases n,
{
    if n > 0 {
        sorted_is_ordered(attrs, (n - 1) as nat);
        let rest = sorted_by_key(attrs, (n - 1) as nat);
        let entry = attrs[n - 1];
        let key = entry.0;
        let p = rank_from(rest, key, 0);
        let out = rest.insert(p, entry);
        let earlier = attrs.take(n - 1);
        rank_in_range(rest, key, 0);
        rank_splits(rest, key, 0);
        assert(out == sorted_by_key(attrs, n));
        assert forall|j: int| 0 <= j < n - 1 implies (#[trigger] rest[j]).0 != key by {
            let k = choose|k: int| 0 <= k < earlier.len() && earlier[k] == rest[j];
            assert(attrs[k].0 != attrs[n - 1].0);
        }
        assert forall|i: int, j: int| 0 <= i < j < out.len() implies less_from(
            (#[trigger] out[i]).0,
            (#[trigger] out[j]).0,
            0,
        ) by {
            if j < p {
                assert(out[i] == rest[i] && out[j] == rest[j]);
            } else if j == p {
                assert(out[i] == rest[i]);
            } else {
                assert(out[j] == rest[j - 1]);
                assert(!less_from(rest[p].0, key, 0));
                assert(rest[p].0 != key);
                less_is_total(key, rest[p].0, 0);
                if j - 1 > p {
                    assert(less_from(rest[p].0, rest[j - 1].0, 0));
                    less_is_transitive(key, rest[p].0, rest[j - 1].0, 0);
                }
                if i < p {
                    assert(out[i] == rest[i]);
                    less_is_transitive(rest[i].0, key, rest[j - 1].0, 0);
                } else if i > p {
                    assert(out[i] == rest[i - 1]);
                }
            }
        }
        assert forall|j: int| 0 <= j < n implies out.contains(#[trigger] attrs[j]) by {
            if j == n - 1 {
                assert(out[p] == attrs[j]);
            } else {
                let k = choose|k: int| 0 <= k < rest.len() && rest[k] == attrs[j];
                if k < p {
                    assert(out[k] == attrs[j]);
                } else {
                    assert(out[k + 1] == attrs[j]);
                }
            }
        }
        assert forall|j: int| 0 <= j < n implies attrs.take(n as int).contains(
            #[trigger] out[j],
        ) by {
            if j == p {
                assert(attrs.take(n as int)[n - 1] == out[j]);
            } else {
                let r = if j < p { rest[j] } else { rest[j - 1] };
                assert(out[j] == r);
                let k = choose|k: int| 0 <= k < earlier.len() && earlier[k] == r;
                assert(attrs.take(n as int)[k] == r);
            }
        }
    }
}

/// What `f` says of an element with the tag `tag` and the attributes
/// `attrs`: that it is hovered, if `f` can say so of some element with that
/// tag and those attributes.
pub open spec fn hovered_by<F: Fn(&str, &Props) -> bool>(f: F) -> spec_fn(Seq<char>, Attrs) -> bool {
    |tag: Seq<char>, attrs: Attrs|
        exists|t: &str, p: &Props| t@ == tag && p@ == attrs && call_ensures(f, (t, p), true)
}

/// `f` can be asked of every element, and what it answers depends on the tag
/// and the attributes alone.
pub open spec fn decides_by_view<F: Fn(&str, &Props) -> bool>(f: F) -> bool {
    &&& forall|t: &str, p: &Props| call_requires(f, (t, p))
    &&& forall|t: &str, p: &Props, b: bool| #[trigger]
        call_ensures(f, (t, p), b) ==> b == hovered_by(f)(t@, p@)
}

/// `acc` after one pass over the first `n` rules: the declarations of each
/// rule of the wanted kind whose selector holds are set, in the order of the
/// rules.
pub open spec fn after_pass(
    acc: Attrs,
    sheet: Seq<RuleView>,
    n: nat,
    kind: SimpleSelectorKind,
    tag: Seq<char>,
    class_attr: Option<Seq<char>>,
    hovered: bool,
) -> Attrs
    decreases n,
{
    if n == 0 || n > sheet.len() {
        acc
    } else {
        let prev = after_pass(acc, sheet, (n - 1) as nat, kind, tag, class_attr, hovered);
        let rule = sheet[n - 1];
        if rule.selector.kind == kind && selects(rule.selector, tag, class_attr, hovered) {
            set_all(prev, rule.decls, rule.decls.len())
        } else {
            prev
        }
    }
}

/// Whether children inherit the declaration of `key`.
pub open spec fn is_inherited(key: Seq<char>) -> bool {
    key == "color"@ || key == "font-size"@ || key == "font-weight"@ || key == "text-decoration"@
        || key == "line-height"@
}

/// `acc` after the declaration `decl`, if children inherit its key.
pub open spec fn add_inherited(acc: Attrs, decl: Seq<char>) -> Attrs {
    let d = trimmed(decl);
    if d.len() == 0 {
        acc
    } else {
        match split_first(d, ':') {
            Some((k, v)) => if is_inherited(trimmed(k)) {
                with_attr(acc, trimmed(k), trimmed(v))
            } else {
                acc
            },
            None => acc,
        }
    }
}

/// What the first `n` declarations of `parts` hand down to children.
pub open spec fn inherited_into(parts: Seq<Seq<char>>, n: nat) -> Attrs
    decreases n,
{
    if n == 0 || n > parts.len() {
        Seq::empty()
    } else {
        add_inherited(inherited_into(parts, (n - 1) as nat), parts[n - 1])
    }
}

/// What an element with the inline style `style` hands down to its
/// children: its declarations of `color`, `font-size`, `font-weight`,
/// `text-decoration` and `line-height`.
pub open spec fn inherited_from(style: Seq<char>) -> Attrs {
    inherited_into(pieces(style, ';'), pieces(style, ';').len())
}

/// The trees of `nodes`, each styled.
pub open spec fn styled_all(
    nodes: Seq<NodeView>,
    sheet: Seq<RuleView>,
    hover: spec_fn(Seq<char>, Attrs) -> bool,
    inherited: Attrs,
) -> Seq<NodeView>
    decreases nodes, 1nat,
{
    Seq::new(
        nodes.len(),
        |i: int|
            if 0 <= i < nodes.len() {
                styled(nodes[i], sheet, hover, inherited)
            } else {
                NodeView::Text(Seq::empty())
            },
    )
}

/// The tree with the sheet applied. A text is left as it is. To an element
/// apply what it inherits, overridden by the declarations of the tag rules
/// that hold of it, overridden by those of the class rules that hold of it;
/// they override its own `style` attribute, and what comes of it becomes its
/// `style` attribute, unless it is empty. Its children are styled likewise,
/// and inherit what `inherited_from` says.
pub open spec fn styled(
    node: NodeView,
    sheet: Seq<RuleView>,
    hover: spec_fn(Seq<char>, Attrs) -> bool,
    inherited: Attrs,
) -> NodeView
    decreases node, 0nat,
{
    match node {
        NodeView::Text(_) => node,
        NodeView::Element { tag, attrs, children } => {
            let class_attr = lookup(attrs, "class"@);
            let hovered = hover(tag, attrs);
            let by_tag = after_pass(
                inherited,
                sheet,
                sheet.len(),
                SimpleSelectorKind::Tag,
                tag,
                class_attr,
                hovered,
            );
            let by_class = after_pass(
                by_tag,
                sheet,
                sheet.len(),
                SimpleSelectorKind::Class,
                tag,
                class_attr,
                hovered,
            );
            let merged = merged_style(lookup(attrs, "style"@), by_class);
            NodeView::Element {
                tag,
                attrs: if merged.len() == 0 {
                    attrs
                } else {
                    with_attr(attrs, "style"@, merged)
                },
                children: styled_all(children, sheet, hover, inherited_from(merged)),
            }
        },
    }
}

/// What an element with the inline style `style` hands down to its children.
fn filter_inheritable(style: &str) -> (out: Props)
    ensures
        out@ == inherited_from(style@),
{
    let text = chars_of(style);
    let parts = split(&text, ';');
    let ghost specs = pieces(style@, ';');
    let mut out = Props::new();
    let mut i: usize = 0;
    while i < parts.len()
        invariant
            i <= parts@.len(),
            parts@.len() == specs.len(),
            forall|j: int| 0 <= j < parts@.len() ==> (#[trigger] parts@[j])@ == specs[j],
            out@ == inherited_into(specs, i as nat),
        decreases parts@.len() - i,
    {
        let d = trim(&parts[i]);
        if d.len() > 0 {
            match split_once(&d, ':') {
                Some((k, v)) => {
                    let key = string_of(&trim(&k));
                    let ks = key.as_str();
                    if ks.eq("color") || ks.eq("font-size") || ks.eq("font-weight") || ks.eq(
                        "text-decoration",
                    ) || ks.eq("line-height") {
                        let value = string_of(&trim(&v));
                        out = out.set(ks, value.as_str());
                    }
                },
                None => {},
            }
        }
        i = i + 1;
    }
    out
}

/// `acc` after one pass over the rules of the wanted kind.
fn apply_pass(
    acc: Props,
    sheet: &Stylesheet,
    kind: SimpleSelectorKind,
    tag: &str,
    class_attr: Option<&str>,
    hovered: bool,
) -> (out: Props)
    ensures
        out@ == after_pass(
            acc@,
            sheet@,
            sheet@.len(),
            kind,
            tag@,
            match class_attr {
                Some(c) => Some(c@),
                None => None,
            },
            hovered,
        ),
{
    let ghost start = acc@;
    let ghost class_view: Option<Seq<char>> = match class_attr {
        Some(c) => Some(c@),
        None => None,
    };
    let mut out = acc;
    let mut i: usize = 0;
    while i < sheet.rules.len()
        invariant
            i <= sheet.rules@.len(),
            sheet@.len() == sheet.rules@.len(),
            class_view == (match class_attr {
                Some(c) => Some(c@),
                None => None,
            }),
            out@ == after_pass(start, sheet@, i as nat, kind, tag@, class_view, hovered),
        decreases sheet.rules@.len() - i,
    {
        let rule = &sheet.rules[i];
        assert(sheet@[i as int] == rule@);
        if rule.selector.kind == kind && matches_selector(
            &rule.selector,
            tag,
            class_attr,
            hovered,
        ) {
            out = set_each(out, &rule.decls);
        }
        i = i + 1;
    }
    out
}

/// The trees of `nodes`, each with the sheet applied.
fn apply_all<F: Fn(&str, &Props) -> bool>(
    nodes: &Vec<VNode>,
    sheet: &Stylesheet,
    hover: &F,
    inherited: &Props,
) -> (out: Vec<VNode>)
    requires
        decides_by_view(*hover),
    ensures
        views(out@) == styled_all(views(nodes@), sheet@, hovered_by(*hover), inherited@),
    decreases nodes, 1nat,
{
    let mut out: Vec<VNode> = Vec::new();
    let ghost kids = views(nodes@);
    let mut i: usize = 0;
    while i < nodes.len()
        invariant
            i <= nodes@.len(),
            kids == views(nodes@),
            out@.len() == i,
            decides_by_view(*hover),
            forall|j: int|
                0 <= j < i ==> (#[trigger] out@[j])@ == styled(
                    kids[j],
                    sheet@,
                    hovered_by(*hover),
                    inherited@,
                ),
        decreases nodes@.len() - i,
    {
        assert(kids[i as int] == nodes@[i as int]@);
        out.push(apply_rec(&nodes[i], sheet, hover, inherited));
        i = i + 1;
    }
    assert(views(out@) =~= styled_all(kids, sheet@, hovered_by(*hover), inherited@));
    out
}

/// The tree with the sheet applied, where its root inherits `inherited`.
fn apply_rec<F: Fn(&str, &Props) -> bool>(
    node: &VNode,
    sheet: &Stylesheet,
    hover: &F,
    inherited: &Props,
) -> (out: VNode)
    requires
        decides_by_view(*hover),
    ensures
        out@ == styled(node@, sheet@, hovered_by(*hover), inherited@),
    decreases node, 0nat,
{
    match node {
        VNode::Text(_) => node.clone(),
        VNode::Element { tag, props, children } => {
            let class_attr: Option<&str> = match props.get("class") {
                Some(c) => Some(c.as_str()),
                None => None,
            };
            let hovered = hover(tag.as_str(), props);
            let by_tag = apply_pass(
                inherited.clone(),
                sheet,
                SimpleSelectorKind::Tag,
                tag.as_str(),
                class_attr,
                hovered,
            );
            let by_class = apply_pass(
                by_tag,
                sheet,
                SimpleSelectorKind::Class,
                tag.as_str(),
                class_attr,
                hovered,
            );
            let existing: Option<&str> = match props.get("style") {
                Some(s) => Some(s.as_str()),
                None => None,
            };
            let merged = merge_styles(existing, &by_class);
            let mut new_props = props.clone();
            if merged.as_str().unicode_len() > 0 {
                new_props = new_props.set("style", merged.as_str());
            }
            let inherit_next = filter_inheritable(merged.as_str());
            let new_children = apply_all(children, sheet, hover, &inherit_next);
            VNode::Element { tag: tag.clone(), props: new_props, children: new_children }
        },
    }
}

/// The tree with the sheet applied, no element being hovered.
pub fn apply_styles(node: &VNode, sheet: &Stylesheet) -> (out: VNode)
    ensures
        out@ == styled(node@, sheet@, |tag: Seq<char>, attrs: Attrs| false, Seq::empty()),
{
    let never = |tag: &str, props: &Props| -> (b: bool)
        ensures
            !b,
        { false };
    let out = apply_styles_with_hover(node, sheet, &never);
    proof {
        assert(hovered_by(never) =~= (|tag: Seq<char>, attrs: Attrs| false));
    }
    out
}

/// The tree with the sheet applied, where `is_hovered` decides from the tag
/// and the attributes of an element whether it is hovered.
pub fn apply_styles_with_hover<F: Fn(&str, &Props) -> bool>(
    node: &VNode,
    sheet: &Stylesheet,
    is_hovered: &F,
) -> (out: VNode)
    requires
        decides_by_view(*is_hovered),
    ensures
        out@ == styled(node@, sheet@, hovered_by(*is_hovered), Seq::empty()),
{
    let inherited_root = Props::new();
    apply_rec(node, sheet, is_hovered, &inherited_root)
}

} // verus!
