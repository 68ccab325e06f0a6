//! Values that a painter reads from a style.

use crate::dom::{lookup, Attrs, Props};
use crate::layout::{int_of, parse_int};
use crate::text::{
    chars_of, copy_range, pieces, same, split, split_first, split_once, string_of, trim, trimmed,
};
use vstd::prelude::*;

verus! {

/// The first position from `i` on that does not hold `c`.
pub open spec fn run_end(s: Seq<char>, c: char, i: int) -> int
    decreases s.len() - i,
{
    if 0 <= i < s.len() && s[i] == c {
        run_end(s, c, i + 1)
    } else {
        i
    }
}

/// The end of `s` before position `j` once the `c`s in front of `j` are
/// dropped, but not below `lo`.
pub open spec fn run_start(s: Seq<char>, c: char, j: int, lo: int) -> int
    decreases j,
{
    if 0 <= lo < j <= s.len() && s[j - 1] == c {
        run_start(s, c, j - 1, lo)
    } else {
        j
    }
}

/// `s` without the `c`s at its start and at its end.
pub open spec fn without_ends(s: Seq<char>, c: char) -> Seq<char> {
    let a = run_end(s, c, 0);
    let b = run_start(s, c, s.len() as int, a);
    s.subrange(a, b)
}

/// `v` without the `c`s at its start and at its end.
fn strip_ends(v: &Vec<char>, c: char) -> (r: Vec<char>)
    ensures
        r@ == without_ends(v@, c),
{
    let mut a: usize = 0;
    while a < v.len() && v[a] == c
        invariant
            a <= v@.len(),
            run_end(v@, c, a as int) == run_end(v@, c, 0),
        decreases v@.len() - a,
    {
        a = a + 1;
    }
    let mut b: usize = v.len();
    while b > a && v[b - 1] == c
        invariant
            a <= b <= v@.len(),
            run_start(v@, c, b as int, a as int) == run_start(v@, c, v@.len() as int, a as int),
        decreases b,
    {
        b = b - 1;
    }
    copy_range(v, a, b)
}

/// The first font family that `value` names: what stands before the first
/// comma, without the white space and the quotes, double and then single,
/// around it; none if nothing is left.
pub open spec fn first_family(value: Seq<char>) -> Option<Seq<char>> {
    let first = trimmed(pieces(value, ',')[0]);
    let name = trimmed(without_ends(without_ends(first, '"'), '\''));
    if name.len() == 0 {
        None
    } else {
        Some(name)
    }
}

/// The first font family that `value` names.
pub fn parse_font_family(value: &str) -> (r: Option<String>)
    ensures
        match r {
            Some(name) => first_family(value@) == Some(name@),
            None => first_family(value@).is_none(),
        },
{
    let parts = split(&chars_of(value), ',');
    proof {
        crate::text::pieces_are_some(value@, ',');
    }
    let first = trim(&parts[0]);
    let name = trim(&strip_ends(&strip_ends(&first, '"'), '\''));
    if name.len() == 0 {
        None
    } else {
        Some(string_of(&name))
    }
}

/// The stacking order that the declarations from `i` on give: the value of
/// the first declaration of `z-index` that writes a number; zero if there
/// is none.
pub open spec fn z_from(parts: Seq<Seq<char>>, i: int) -> i32
    decreases parts.len() - i,
{
    if 0 <= i < parts.len() {
        let d = trimmed(parts[i]);
        match split_first(d, ':') {
            Some((k, v)) => if d.len() > 0 && trimmed(k) == "z-index"@ && int_of(trimmed(v))
                is Some {
                int_of(trimmed(v)).unwrap()
            } else {
                z_from(parts, i + 1)
            },
            None => z_from(parts, i + 1),
        }
    } else {
        0
    }
}

/// The stacking order of an element with the attributes `attrs`.
pub open spec fn z_index_of(attrs: Attrs) -> i32 {
    match lookup(attrs, "style"@) {
        Some(style) => z_from(pieces(style, ';'), 0),
        None => 0,
    }
}

/// The stacking order that the `style` attribute of `props` declares as
/// `z-index`; zero if it declares none.
#[verifier::loop_isolation(false)]
pub fn z_index_for_props(props: &Props) -> (z: i32)
    ensures
        z == z_index_of(props@),
{
    let style = match props.get("style") {
        Some(s) => s,
        None => {
            return 0;
        },
    };
    let parts = split(&chars_of(style.as_str()), ';');
    let wanted = chars_of("z-index");
    let ghost specs = pieces(style@, ';');
    let mut i: usize = 0;
    while i < parts.len()
        invariant
            i <= parts@.len(),
            z_from(specs, i as int) == z_from(specs, 0),
        decreases parts@.len() - i,
    {
        assert(parts@[i as int]@ == specs[i as int]);
        let d = trim(&parts[i]);
        if d.len() > 0 {
            match split_once(&d, ':') {
                Some((k, v)) => {
                    if same(&trim(&k), &wanted) {
                        match parse_int(&trim(&v)) {
                            Some(z) => {
                                return z;
                            },
                            None => {},
                        }
                    }
                },
                None => {},
            }
        }
        i = i + 1;
    }
    0
}

} // verus!
