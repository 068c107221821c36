//! The mathematical model of a `/`-separated path: how a character
//! sequence splits into components.
use vstd::prelude::*;

verus! {

/// A path component, as a mathematical value.
pub enum SComponent {
    RootDir,
    CurDir,
    ParentDir,
    Normal(Seq<char>),
}

pub open spec fn is_sep(c: char) -> bool {
    c == '/'
}

/// Index of the first separator of `s`, or `s.len()` if there is none.
pub open spec fn sep_index(s: Seq<char>) -> int
    decreases s.len(),
{
    if s.len() == 0 {
        0
    } else if is_sep(s[0]) {
        0
    } else {
        1 + sep_index(s.drop_first())
    }
}

/// Index of the last separator of `s`, or `-1` if there is none.
pub open spec fn last_sep_index(s: Seq<char>) -> int
    decreases s.len(),
{
    if s.len() == 0 {
        -1
    } else if is_sep(s.last()) {
        s.len() - 1
    } else {
        last_sep_index(s.drop_last())
    }
}

pub open spec fn has_no_sep(s: Seq<char>) -> bool {
    forall|i: int| 0 <= i < s.len() ==> !is_sep(#[trigger] s[i])
}

/// What one separator-free piece of a path contributes to its components:
/// nothing for an empty piece or `.`, `ParentDir` for `..`, else the piece.
pub open spec fn piece(p: Seq<char>) -> Seq<SComponent> {
    if p.len() == 0 || p =~= seq!['.'] {
        seq![]
    } else if p =~= seq!['.', '.'] {
        seq![SComponent::ParentDir]
    } else {
        seq![SComponent::Normal(p)]
    }
}

/// The components of the body of a path (the part after any root or
/// leading current-directory marker): its pieces between separators.
pub open spec fn body(s: Seq<char>) -> Seq<SComponent>
    decreases s.len(),
{
    if s.len() == 0 {
        seq![]
    } else {
        let i = sep_index(s);
        if i >= s.len() || i < 0 {
            piece(s)
        } else {
            piece(s.take(i)) + body(s.skip(i + 1))
        }
    }
}

pub open spec fn starts_with_sep(s: Seq<char>) -> bool {
    s.len() > 0 && is_sep(s[0])
}

/// A relative path that begins with the piece `.`.
pub open spec fn starts_with_cur_dir(s: Seq<char>) -> bool {
    s.len() > 0 && s[0] == '.' && (s.len() == 1 || is_sep(s[1]))
}

/// Number of characters taken by the head (root or leading `.`).
pub open spec fn head_len(s: Seq<char>) -> int {
    if starts_with_sep(s) || starts_with_cur_dir(s) {
        1
    } else {
        0
    }
}

pub open spec fn head(s: Seq<char>) -> Seq<SComponent> {
    if starts_with_sep(s) {
        seq![SComponent::RootDir]
    } else if starts_with_cur_dir(s) {
        seq![SComponent::CurDir]
    } else {
        seq![]
    }
}

/// The components of a path.
pub open spec fn spec_components(s: Seq<char>) -> Seq<SComponent> {
    head(s) + body(s.skip(head_len(s)))
}

/// The characters of a component, as `Component::as_str` gives them.
pub open spec fn component_chars(c: SComponent) -> Seq<char> {
    match c {
        SComponent::RootDir => seq!['/'],
        SComponent::CurDir => seq!['.'],
        SComponent::ParentDir => seq!['.', '.'],
        SComponent::Normal(p) => p,
    }
}

/// Whether the last piece of the body of `s` contributes no component
/// (it is empty or `.`), so that the text of `s` ends in noise.
pub open spec fn ends_with_noise(s: Seq<char>) -> bool {
    let b = s.skip(head_len(s));
    b.len() > 0 && piece(b.skip(last_sep_index(b) + 1)).len() == 0
}

pub proof fn lemma_sep_index(s: Seq<char>)
    ensures
        0 <= sep_index(s) <= s.len(),
        forall|i: int| 0 <= i < sep_index(s) ==> !is_sep(#[trigger] s[i]),
        sep_index(s) < s.len() ==> is_sep(s[sep_index(s)]),
    decreases s.len(),
{
    if s.len() > 0 && !is_sep(s[0]) {
        lemma_sep_index(s.drop_first());
        assert forall|i: int| 0 <= i < sep_index(s) implies !is_sep(#[trigger] s[i]) by {
            if i > 0 {
                assert(s[i] == s.drop_first()[i - 1]);
            }
        }
    }
}

pub proof fn lemma_last_sep_index(s: Seq<char>)
    ensures
        -1 <= last_sep_index(s) < s.len(),
        forall|i: int| last_sep_index(s) < i < s.len() ==> !is_sep(#[trigger] s[i]),
        last_sep_index(s) >= 0 ==> is_sep(s[last_sep_index(s)]),
    decreases s.len(),
{
    if s.len() > 0 && !is_sep(s.last()) {
        lemma_last_sep_index(s.drop_last());
        assert forall|i: int| last_sep_index(s) < i < s.len() implies !is_sep(#[trigger] s[i]) by {
            if i < s.len() - 1 {
                assert(s[i] == s.drop_last()[i]);
            }
        }
    }
}

/// A separator-free sequence is a single piece.
pub proof fn lemma_body_no_sep(s: Seq<char>)
    requires
        has_no_sep(s),
    ensures
        body(s) == piece(s),
{
    if s.len() > 0 {
        lemma_sep_index(s);
        if sep_index(s) < s.len() {
            assert(!is_sep(s[sep_index(s)]));
        }
    }
}

/// The body of `a / b` is the body of `a` followed by the body of `b`.
pub proof fn lemma_body_concat(a: Seq<char>, b: Seq<char>)
    ensures
        body(a + seq!['/'] + b) == body(a) + body(b),
    decreases a.len(),
{
    let s = a + seq!['/'] + b;
    lemma_sep_index(a);
    lemma_sep_index(s);
    let i = sep_index(a);
    if i == a.len() {
        // the first separator of `s` is the one joining `a` and `b`
        assert(is_sep(s[a.len() as int]));
        if sep_index(s) < a.len() {
            assert(s[sep_index(s)] == a[sep_index(s)]);
        }
        assert(sep_index(s) == a.len());
        assert(s.take(i) =~= a);
        assert(s.skip(i + 1) =~= b);
        if a.len() > 0 {
            lemma_body_no_sep(a);
        } else {
            assert(a =~= seq![]);
            assert(piece(a) =~= seq![]);
        }
        assert(body(s) == piece(a) + body(b));
        assert(body(a) == piece(a)) by {
            if a.len() > 0 {
                lemma_body_no_sep(a);
            }
        }
    } else {
        assert(s[i] == a[i]);
        if sep_index(s) < i {
            assert(s[sep_index(s)] == a[sep_index(s)]);
        }
        assert(sep_index(s) == i);
        let rest = a.skip(i + 1);
        assert(s.take(i) =~= a.take(i));
        assert(s.skip(i + 1) =~= rest + seq!['/'] + b);
        lemma_body_concat(rest, b);
        assert(body(s) == piece(a.take(i)) + (body(rest) + body(b)));
        assert(body(a) == piece(a.take(i)) + body(rest));
        assert(body(s) =~= body(a) + body(b));
    }
}

/// The body of a path, read from its last separator backwards.
pub proof fn lemma_body_back(s: Seq<char>)
    requires
        s.len() > 0,
    ensures
        last_sep_index(s) < 0 ==> body(s) == piece(s),
        last_sep_index(s) >= 0 ==> body(s) == body(s.take(last_sep_index(s))) + piece(
            s.skip(last_sep_index(s) + 1),
        ),
{
    lemma_last_sep_index(s);
    let j = last_sep_index(s);
    if j < 0 {
        lemma_body_no_sep(s);
    } else {
        let a = s.take(j);
        let b = s.skip(j + 1);
        assert(s =~= a + seq!['/'] + b);
        lemma_body_concat(a, b);
        assert(has_no_sep(b)) by {
            assert forall|k: int| 0 <= k < b.len() implies !is_sep(#[trigger] b[k]) by {
                assert(b[k] == s[j + 1 + k]);
            }
        }
        lemma_body_no_sep(b);
    }
}

/// The body without its last piece (and the separator before it).
pub open spec fn cut_last(b: Seq<char>) -> Seq<char> {
    if last_sep_index(b) < 0 {
        seq![]
    } else {
        b.take(last_sep_index(b))
    }
}

/// The body with its trailing pieces that stand for no component removed.
pub open spec fn trim_end(b: Seq<char>) -> Seq<char>
    decreases b.len(),
{
    if b.len() == 0 {
        b
    } else if piece(b.skip(last_sep_index(b) + 1)).len() > 0 {
        b
    } else {
        proof {
            lemma_last_sep_index(b);
        }
        trim_end(cut_last(b))
    }
}

/// The text of the parent of `p`: its head, then its body without trailing
/// noise, without the last component, and without trailing noise again.
/// When the body has no component the parent is empty.
pub open spec fn spec_parent(p: Seq<char>) -> Seq<char> {
    let h = head_len(p);
    let t = trim_end(p.skip(h));
    if t.len() == 0 {
        seq![]
    } else {
        p.take(h) + trim_end(cut_last(t))
    }
}

/// Whether a path has a parent: it has components and the last is not the root.
pub open spec fn has_parent(p: Seq<char>) -> bool {
    let cs = spec_components(p);
    cs.len() > 0 && !(cs.last() is RootDir)
}

/// `q` is the parent of `p`: the leading part of the text of `p` that holds
/// all its components but the last, with no trailing noise.
pub open spec fn is_parent_path(q: Seq<char>, p: Seq<char>) -> bool {
    &&& q.is_prefix_of(p)
    &&& spec_components(q) == spec_components(p).drop_last()
    &&& !ends_with_noise(q)
}

/// The file name of a path: its last component, if that is a name.
pub open spec fn spec_file_name(p: Seq<char>) -> Option<Seq<char>> {
    let cs = spec_components(p);
    if cs.len() > 0 {
        match cs.last() {
            SComponent::Normal(n) => Some(n),
            _ => None,
        }
    } else {
        None
    }
}

/// A body never yields a root or current-directory component.
pub proof fn lemma_body_only(s: Seq<char>)
    ensures
        only_body_components(body(s)),
    decreases s.len(),
{
    if s.len() > 0 {
        lemma_sep_index(s);
        let i = sep_index(s);
        if i < s.len() {
            lemma_body_only(s.skip(i + 1));
            let a = piece(s.take(i));
            let b = body(s.skip(i + 1));
            assert forall|k: int| 0 <= k < (a + b).len() implies (#[trigger] (a + b)[k] matches SComponent::ParentDir || (a + b)[k] matches SComponent::Normal(_)) by {
                if k >= a.len() {
                    assert((a + b)[k] == b[k - a.len()]);
                }
            }
        }
    }
}

/// A body never yields a root or current-directory component.
pub open spec fn only_body_components(cs: Seq<SComponent>) -> bool {
    forall|i: int|
        0 <= i < cs.len() ==> (#[trigger] cs[i] matches SComponent::ParentDir || cs[i] matches SComponent::Normal(_))
}

} // verus!
