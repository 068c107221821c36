//! The order of paths: component by component, names by their characters.
use vstd::prelude::*;
use vstd::string::*;

use crate::components::{Component, Components};
use crate::path_spec::{
    body, head, head_len, is_sep, lemma_body_concat, spec_components, starts_with_sep, SComponent,
};
use crate::spath::SPath;
use crate::text::char_len;

verus! {

/// -1, 0 or 1 as `a` comes before, equals or comes after `b`.
pub open spec fn sign_of(a: int, b: int) -> int {
    if a < b {
        -1
    } else if a == b {
        0
    } else {
        1
    }
}

/// Characters in the order of their scalar values, lexicographically.
pub open spec fn chars_order(a: Seq<char>, b: Seq<char>) -> int
    decreases a.len(),
{
    if a.len() == 0 {
        if b.len() == 0 {
            0
        } else {
            -1
        }
    } else if b.len() == 0 {
        1
    } else if a[0] != b[0] {
        sign_of(a[0] as int, b[0] as int)
    } else {
        chars_order(a.drop_first(), b.drop_first())
    }
}

pub open spec fn component_rank(c: SComponent) -> int {
    match c {
        SComponent::RootDir => 0,
        SComponent::CurDir => 1,
        SComponent::ParentDir => 2,
        SComponent::Normal(_) => 3,
    }
}

/// The order of components: root, current directory, parent directory,
/// then names in the order of their characters.
pub open spec fn component_order(a: SComponent, b: SComponent) -> int {
    match (a, b) {
        (SComponent::Normal(x), SComponent::Normal(y)) => chars_order(x, y),
        _ => sign_of(component_rank(a), component_rank(b)),
    }
}

/// Sequences of components, lexicographically.
pub open spec fn components_order(a: Seq<SComponent>, b: Seq<SComponent>) -> int
    decreases a.len(),
{
    if a.len() == 0 {
        if b.len() == 0 {
            0
        } else {
            -1
        }
    } else if b.len() == 0 {
        1
    } else if component_order(a[0], b[0]) != 0 {
        component_order(a[0], b[0])
    } else {
        components_order(a.drop_first(), b.drop_first())
    }
}

/// The order of two paths, by their components.
pub open spec fn path_order(a: Seq<char>, b: Seq<char>) -> int {
    components_order(spec_components(a), spec_components(b))
}

pub proof fn lemma_chars_order_equal(a: Seq<char>, b: Seq<char>)
    ensures
        (chars_order(a, b) == 0) == (a == b),
    decreases a.len(),
{
    if a.len() > 0 && b.len() > 0 && a[0] == b[0] {
        lemma_chars_order_equal(a.drop_first(), b.drop_first());
        if a.drop_first() == b.drop_first() {
            assert(a =~= seq![a[0]] + a.drop_first());
            assert(b =~= seq![b[0]] + b.drop_first());
        }
    } else if a.len() > 0 && b.len() > 0 {
        assert(a[0] != b[0]);
    } else if a.len() == 0 && b.len() == 0 {
        assert(a =~= b);
    }
}

pub proof fn lemma_component_order_equal(a: SComponent, b: SComponent)
    ensures
        (component_order(a, b) == 0) == (a == b),
{
    match (a, b) {
        (SComponent::Normal(x), SComponent::Normal(y)) => lemma_chars_order_equal(x, y),
        _ => {},
    }
}

/// Two sequences of components are in order 0 exactly when they are equal.
pub proof fn lemma_components_order_equal(a: Seq<SComponent>, b: Seq<SComponent>)
    ensures
        (components_order(a, b) == 0) == (a == b),
    decreases a.len(),
{
    if a.len() > 0 && b.len() > 0 {
        lemma_component_order_equal(a[0], b[0]);
        if component_order(a[0], b[0]) == 0 {
            lemma_components_order_equal(a.drop_first(), b.drop_first());
            if a.drop_first() == b.drop_first() {
                assert(a =~= seq![a[0]] + a.drop_first());
                assert(b =~= seq![b[0]] + b.drop_first());
            }
        }
    } else if a.len() == 0 && b.len() == 0 {
        assert(a =~= b);
    }
}

/// Swapping the arguments negates the order of character sequences.
pub proof fn lemma_chars_order_antisymmetric(a: Seq<char>, b: Seq<char>)
    ensures
        chars_order(a, b) == -chars_order(b, a),
    decreases a.len(),
{
    if a.len() > 0 && b.len() > 0 && a[0] == b[0] {
        lemma_chars_order_antisymmetric(a.drop_first(), b.drop_first());
    }
}

/// The order of character sequences is transitive.
pub proof fn lemma_chars_order_transitive(a: Seq<char>, b: Seq<char>, c: Seq<char>)
    requires
        chars_order(a, b) < 0,
        chars_order(b, c) < 0,
    ensures
        chars_order(a, c) < 0,
    decreases a.len(),
{
    if a.len() > 0 && b.len() > 0 && c.len() > 0 && a[0] == b[0] && b[0] == c[0] {
        lemma_chars_order_transitive(a.drop_first(), b.drop_first(), c.drop_first());
    }
}

/// Swapping the arguments negates the order of components.
pub proof fn lemma_component_order_antisymmetric(a: SComponent, b: SComponent)
    ensures
        component_order(a, b) == -component_order(b, a),
{
    match (a, b) {
        (SComponent::Normal(x), SComponent::Normal(y)) => lemma_chars_order_antisymmetric(x, y),
        _ => {},
    }
}

/// The order of components is transitive.
pub proof fn lemma_component_order_transitive(a: SComponent, b: SComponent, c: SComponent)
    requires
        component_order(a, b) < 0,
        component_order(b, c) < 0,
    ensures
        component_order(a, c) < 0,
{
    match (a, b, c) {
        (SComponent::Normal(x), SComponent::Normal(y), SComponent::Normal(z)) => {
            lemma_chars_order_transitive(x, y, z)
        },
        _ => {},
    }
}

/// Swapping the arguments negates the order of component sequences.
pub proof fn lemma_components_order_antisymmetric(a: Seq<SComponent>, b: Seq<SComponent>)
    ensures
        components_order(a, b) == -components_order(b, a),
    decreases a.len(),
{
    if a.len() > 0 && b.len() > 0 {
        lemma_component_order_antisymmetric(a[0], b[0]);
        lemma_components_order_antisymmetric(a.drop_first(), b.drop_first());
    }
}

/// The order of component sequences is transitive.
pub proof fn lemma_components_order_transitive(
    a: Seq<SComponent>,
    b: Seq<SComponent>,
    c: Seq<SComponent>,
)
    requires
        components_order(a, b) < 0,
        components_order(b, c) < 0,
    ensures
        components_order(a, c) < 0,
    decreases a.len(),
{
    if a.len() > 0 && b.len() > 0 && c.len() > 0 {
        lemma_component_order_equal(a[0], b[0]);
        lemma_component_order_equal(b[0], c[0]);
        if component_order(a[0], b[0]) == 0 && component_order(b[0], c[0]) == 0 {
            lemma_components_order_transitive(a.drop_first(), b.drop_first(), c.drop_first());
        } else if component_order(a[0], b[0]) == 0 {
            assert(a[0] == b[0]);
        } else if component_order(b[0], c[0]) == 0 {
            assert(b[0] == c[0]);
        } else {
            lemma_component_order_transitive(a[0], b[0], c[0]);
        }
    }
}

/// A common beginning does not change the order.
pub proof fn lemma_components_order_common_prefix(
    x: Seq<SComponent>,
    a: Seq<SComponent>,
    b: Seq<SComponent>,
)
    ensures
        components_order(x + a, x + b) == components_order(a, b),
    decreases x.len(),
{
    if x.len() > 0 {
        lemma_component_order_equal(x[0], x[0]);
        assert((x + a).drop_first() =~= x.drop_first() + a);
        assert((x + b).drop_first() =~= x.drop_first() + b);
        lemma_components_order_common_prefix(x.drop_first(), a, b);
    } else {
        assert(x + a =~= a);
        assert(x + b =~= b);
    }
}

/// The order of two characters.
fn char_order(a: char, b: char) -> (r: i8)
    ensures
        r == sign_of(a as int, b as int),
{
    let x = a as u32;
    let y = b as u32;
    if x < y {
        -1
    } else if x == y {
        0
    } else {
        1
    }
}

/// The order of two string slices, character by character.
pub fn str_order(a: &str, b: &str) -> (r: i8)
    ensures
        r == chars_order(a@, b@),
{
    let n = char_len(a);
    let m = char_len(b);
    let mut i: usize = 0;
    assert(a@.skip(0) =~= a@);
    assert(b@.skip(0) =~= b@);
    while i < n && i < m
        invariant
            n == a@.len(),
            m == b@.len(),
            i <= n,
            i <= m,
            chars_order(a@, b@) == chars_order(a@.skip(i as int), b@.skip(i as int)),
        decreases n - i,
    {
        let c = char_order(a.get_char(i), b.get_char(i));
        assert(a@.skip(i as int)[0] == a@[i as int]);
        assert(b@.skip(i as int)[0] == b@[i as int]);
        if c != 0 {
            return c;
        }
        assert(a@.skip(i as int).drop_first() =~= a@.skip(i + 1));
        assert(b@.skip(i as int).drop_first() =~= b@.skip(i + 1));
        i = i + 1;
    }
    if i < n {
        1
    } else if i < m {
        -1
    } else {
        0
    }
}

fn component_rank_of(c: &Component) -> (r: i8)
    ensures
        r == component_rank(c@),
{
    match c {
        Component::RootDir => 0,
        Component::CurDir => 1,
        Component::ParentDir => 2,
        Component::Normal(_) => 3,
    }
}

/// The order of two components.
pub fn component_order_of(a: &Component, b: &Component) -> (r: i8)
    ensures
        r == component_order(a@, b@),
{
    match (a, b) {
        (Component::Normal(x), Component::Normal(y)) => str_order(x, y),
        _ => {
            let x = component_rank_of(a);
            let y = component_rank_of(b);
            if x < y {
                -1
            } else if x == y {
                0
            } else {
                1
            }
        },
    }
}

/// The order of the remaining components of two iterators.
pub fn iter_order(a: Components, b: Components) -> (r: i8)
    requires
        a.wf(),
        b.wf(),
    ensures
        r == components_order(a@, b@),
{
    let mut x = a;
    let mut y = b;
    loop
        invariant
            x.wf(),
            y.wf(),
            components_order(a@, b@) == components_order(x@, y@),
        decreases x@.len(),
    {
        let ghost xs = x@;
        let ghost ys = y@;
        match (x.next(), y.next()) {
            (Some(p), Some(q)) => {
                let c = component_order_of(&p, &q);
                if c != 0 {
                    return c;
                }
            },
            (None, None) => {
                return 0;
            },
            (None, Some(_)) => {
                return -1;
            },
            (Some(_), None) => {
                return 1;
            },
        }
    }
}

/// Index of the first character where `a` and `b` differ, if any (within
/// the shorter of the two).
fn first_difference(a: &str, b: &str) -> (r: Option<usize>)
    ensures
        match r {
            Some(i) => i < a@.len() && i < b@.len() && a@[i as int] != b@[i as int] && forall|
                k: int,
            |
                0 <= k < i ==> a@[k] == b@[k],
            None => forall|k: int| 0 <= k < a@.len() && k < b@.len() ==> a@[k] == b@[k],
        },
{
    let n = char_len(a);
    let m = char_len(b);
    let mut i: usize = 0;
    while i < n && i < m
        invariant
            n == a@.len(),
            m == b@.len(),
            i <= n,
            i <= m,
            forall|k: int| 0 <= k < i ==> a@[k] == b@[k],
        decreases n - i,
    {
        if a.get_char(i) != b.get_char(i) {
            return Some(i);
        }
        i = i + 1;
    }
    None
}

/// Index of the last separator among the first `end` characters of `s`.
fn last_sep_before(s: &str, end: usize) -> (r: Option<usize>)
    requires
        end <= s@.len(),
    ensures
        match r {
            Some(k) => k < end && is_sep(s@[k as int]),
            None => forall|k: int| 0 <= k < end ==> !is_sep(#[trigger] s@[k]),
        },
{
    let mut i = end;
    while i > 0
        invariant
            i <= end <= s@.len(),
            forall|k: int| i <= k < end ==> !is_sep(#[trigger] s@[k]),
        decreases i,
    {
        if s.get_char(i - 1) == '/' {
            return Some(i - 1);
        }
        i = i - 1;
    }
    None
}

/// Components are ordered as they are declared: the root first, then the
/// current directory, then the parent directory, then names, and names
/// among themselves by their characters.
pub proof fn law_component_declaration_order(c: SComponent, x: Seq<char>, y: Seq<char>)
    ensures
        c != SComponent::RootDir ==> component_order(SComponent::RootDir, c) < 0,
        c != SComponent::RootDir ==> component_order(c, SComponent::RootDir) > 0,
        component_order(SComponent::CurDir, SComponent::ParentDir) < 0,
        component_order(SComponent::CurDir, SComponent::Normal(x)) < 0,
        component_order(SComponent::ParentDir, SComponent::Normal(x)) < 0,
        component_order(SComponent::Normal(x), SComponent::CurDir) > 0,
        component_order(SComponent::Normal(x), SComponent::ParentDir) > 0,
        component_order(SComponent::ParentDir, SComponent::CurDir) > 0,
        component_order(c, c) == 0,
        component_order(SComponent::Normal(x), SComponent::Normal(y)) == chars_order(x, y),
{
    if c is Normal {
        lemma_chars_order_equal(c->Normal_0, c->Normal_0);
    }
}

/// An absolute path sorts before every path whose first component is not
/// the root: `/a` comes before `./a`, `../a` and `a`.
pub proof fn law_absolute_paths_first(p: Seq<char>, q: Seq<char>)
    requires
        starts_with_sep(p),
        spec_components(q).len() > 0,
        !(spec_components(q)[0] is RootDir),
    ensures
        path_order(p, q) < 0,
{
    let cp = spec_components(p);
    assert(cp[0] == SComponent::RootDir);
    law_component_declaration_order(spec_components(q)[0], seq![], seq![]);
}

/// Two paths that share their text up to and including a separator share
/// the components of that part, so only what follows it decides.
pub proof fn lemma_shared_start(p: Seq<char>, r: Seq<char>, k: int) -> (x: Seq<SComponent>)
    requires
        0 <= k < p.len(),
        k < r.len(),
        is_sep(p[k]),
        forall|i: int| 0 <= i <= k ==> p[i] == r[i],
    ensures
        spec_components(p) == x + body(p.skip(k + 1)),
        spec_components(r) == x + body(r.skip(k + 1)),
{
    assert(r[k] == p[k]);
    let h = head_len(p);
    assert(head(p) == head(r) && head_len(r) == h) by {
        assert(p[0] == r[0]);
        if k >= 1 {
            assert(p[1] == r[1]);
        }
    }
    if h == k + 1 {
        assert(p.skip(h) =~= p.skip(k + 1));
        assert(r.skip(h) =~= r.skip(k + 1));
        let x = head(p);
        assert(spec_components(p) == x + body(p.skip(k + 1)));
        assert(spec_components(r) == x + body(r.skip(k + 1)));
        x
    } else {
        let cp = p.subrange(h, k);
        let cr = r.subrange(h, k);
        assert(cp =~= cr);
        assert(p.skip(h) =~= cp + seq!['/'] + p.skip(k + 1));
        assert(r.skip(h) =~= cr + seq!['/'] + r.skip(k + 1));
        lemma_body_concat(cp, p.skip(k + 1));
        lemma_body_concat(cr, r.skip(k + 1));
        let x = head(p) + body(cp);
        assert(spec_components(p) =~= x + body(p.skip(k + 1)));
        assert(spec_components(r) =~= x + body(r.skip(k + 1)));
        x
    }
}

/// The order of two paths: skips the text they share up to its last
/// separator, then compares what is left component by component.
pub fn compare_paths(left: SPath, right: SPath) -> (r: i8)
    ensures
        r == path_order(left@, right@),
{
    let mut l = left.components();
    let mut rt = right.components();
    let a = left.as_str();
    let b = right.as_str();
    let n = char_len(a);
    let m = char_len(b);
    let diff = match first_difference(a, b) {
        None => {
            if n == m {
                proof {
                    assert(a@ =~= b@);
                    lemma_components_order_equal(spec_components(left@), spec_components(right@));
                }
                return 0;
            }
            if n < m {
                n
            } else {
                m
            }
        },
        Some(d) => d,
    };
    match last_sep_before(a, diff) {
        Some(k) => {
            proof {
                let x = lemma_shared_start(a@, b@, k as int);
                lemma_components_order_common_prefix(
                    x,
                    body(a@.skip(k + 1)),
                    body(b@.skip(k + 1)),
                );
            }
            let ta = a.substring_char(k + 1, n);
            let tb = b.substring_char(k + 1, m);
            assert(ta@ =~= a@.skip(k + 1));
            assert(tb@ =~= b@.skip(k + 1));
            let ca = Components::body_of(ta);
            let cb = Components::body_of(tb);
            iter_order(ca, cb)
        },
        None => iter_order(l, rt),
    }
}

} // verus!
