//! What pushing, popping and comparing do to the components of a path.
use vstd::prelude::*;

use crate::order::{
    lemma_components_order_antisymmetric, lemma_components_order_equal,
    lemma_components_order_transitive, path_order,
};
use crate::path_spec::{
    body, component_chars, has_no_sep, has_parent, head, head_len, is_parent_path, is_sep,
    lemma_body_concat, lemma_sep_index, piece, sep_index, spec_components, starts_with_cur_dir,
    starts_with_sep, SComponent,
};
use crate::spath::spec_push;

verus! {

/// A single name: a non-empty piece without separators that is neither
/// `.` nor `..`.
pub open spec fn is_name(s: Seq<char>) -> bool {
    &&& s.len() > 0
    &&& forall|i: int| 0 <= i < s.len() ==> !is_sep(#[trigger] s[i])
    &&& s != seq!['.']
    &&& s != seq!['.', '.']
}

proof fn lemma_body_trailing_sep(t: Seq<char>)
    ensures
        body(t + seq!['/']) == body(t),
{
    lemma_body_concat(t, seq![]);
    assert(t + seq!['/'] + Seq::<char>::empty() =~= t + seq!['/']);
    assert(body(Seq::<char>::empty()) =~= Seq::<SComponent>::empty());
    assert(body(t) + Seq::<SComponent>::empty() =~= body(t));
}

/// Pushing a path onto another, at the level of components: an absolute
/// path, or any path pushed onto an empty one, replaces it; a relative path
/// pushed onto a non-empty one adds the components of its body (its
/// components without a leading `.`).
pub proof fn law_push_components(p: Seq<char>, q: Seq<char>)
    ensures
        starts_with_sep(q) ==> spec_components(spec_push(p, q)) == spec_components(q),
        p.len() == 0 ==> spec_components(spec_push(p, q)) == spec_components(q),
        !starts_with_sep(q) && p.len() > 0 ==> spec_components(spec_push(p, q)) == spec_components(p)
            + body(q),
        !starts_with_sep(q) && !starts_with_cur_dir(q) ==> body(q) == spec_components(q),
{
    if !starts_with_sep(q) && !starts_with_cur_dir(q) {
        assert(q.skip(0) =~= q);
        assert(spec_components(q) =~= body(q));
    }
    if p.len() == 0 && !starts_with_sep(q) {
        assert(spec_push(p, q) =~= q);
    }
    if !starts_with_sep(q) && p.len() > 0 {
        let s = spec_push(p, q);
        let h = head_len(p);
        if !is_sep(p.last()) {
            assert(s == p + seq!['/'] + q);
            assert(s[0] == p[0]);
            if p.len() > 1 {
                assert(s[1] == p[1]);
            } else {
                assert(s[1] == '/');
            }
            assert(head(s) == head(p));
            assert(head_len(s) == h);
            assert(s.skip(h) =~= p.skip(h) + seq!['/'] + q);
            lemma_body_concat(p.skip(h), q);
            assert(spec_components(s) =~= spec_components(p) + body(q));
        } else {
            assert(s == p + q);
            if p.len() == 1 {
                assert(p =~= seq!['/']);
                assert(head_len(s) == 1);
                assert(s.skip(1) =~= q);
                assert(p.skip(1) =~= Seq::<char>::empty());
                assert(body(Seq::<char>::empty()) =~= Seq::<SComponent>::empty());
                assert(spec_components(s) =~= spec_components(p) + body(q));
            } else {
                assert(s[0] == p[0]);
                assert(s[1] == p[1]);
                assert(head(s) == head(p));
                let t = p.skip(h);
                assert(t.len() > 0);
                let u = t.drop_last();
                assert(t =~= u + seq!['/']);
                assert(s.skip(h) =~= u + seq!['/'] + q);
                lemma_body_concat(u, q);
                lemma_body_trailing_sep(u);
                assert(spec_components(s) =~= spec_components(p) + body(q));
            }
        }
    }
}

/// Stripping a path off the front of what was pushed onto it gives back the
/// body of what was pushed: the pushed-onto path's components begin the
/// result's, and what follows them is the body of the pushed path.
pub proof fn law_strip_prefix_undoes_push(p: Seq<char>, q: Seq<char>)
    requires
        p.len() > 0,
        !starts_with_sep(q),
    ensures
        spec_components(p).is_prefix_of(spec_components(spec_push(p, q))),
        spec_components(spec_push(p, q)).skip(spec_components(p).len() as int) == body(q),
{
    law_push_components(p, q);
    let cp = spec_components(p);
    let all = spec_components(spec_push(p, q));
    assert(all == cp + body(q));
    assert(all.skip(cp.len() as int) =~= body(q));
    assert forall|i: int| 0 <= i < cp.len() implies all[i] == cp[i] by {}
}

/// Popping undoes pushing a single name onto a path: the result has a
/// parent, and any parent of it has the components of the path again.
pub proof fn law_pop_undoes_push(p: Seq<char>, name: Seq<char>, q: Seq<char>)
    requires
        is_name(name),
        is_parent_path(q, spec_push(p, name)),
    ensures
        has_parent(spec_push(p, name)),
        spec_components(q) == spec_components(p),
{
    law_push_components(p, name);
    assert(!starts_with_sep(name)) by {
        assert(!is_sep(name[0]));
    }
    if name.len() > 1 && name[0] == '.' {
        assert(!is_sep(name[1]));
    }
    crate::path_spec::lemma_body_no_sep(name);
    assert(body(name) =~= seq![SComponent::Normal(name)]);
    if p.len() == 0 {
        assert(p.skip(head_len(p)) =~= Seq::<char>::empty());
        assert(body(Seq::<char>::empty()) =~= Seq::<SComponent>::empty());
        assert(spec_components(p) =~= Seq::<SComponent>::empty());
    }
    let cs = spec_components(spec_push(p, name));
    assert(cs =~= spec_components(p).push(SComponent::Normal(name)));
    assert(cs.drop_last() =~= spec_components(p));
}

/// Paths are ordered by their components as a total order: two paths are
/// in order 0 exactly when they have the same components, swapping them
/// negates the order, and the order is transitive.
pub proof fn law_path_order_total(a: Seq<char>, b: Seq<char>, c: Seq<char>)
    ensures
        (path_order(a, b) == 0) == (spec_components(a) == spec_components(b)),
        path_order(a, b) == -path_order(b, a),
        path_order(a, b) < 0 && path_order(b, c) < 0 ==> path_order(a, c) < 0,
{
    lemma_components_order_equal(spec_components(a), spec_components(b));
    lemma_components_order_antisymmetric(spec_components(a), spec_components(b));
    if path_order(a, b) < 0 && path_order(b, c) < 0 {
        lemma_components_order_transitive(
            spec_components(a),
            spec_components(b),
            spec_components(c),
        );
    }
}

/// What a run of `next` (`true`) and `next_back` (`false`) calls takes from
/// components `v`, as their contracts give it step by step: the items taken
/// from the front, in order; those taken from the back, in order; and what
/// is left. A call on nothing left takes nothing.
pub open spec fn take_moves(v: Seq<SComponent>, moves: Seq<bool>) -> (
    Seq<SComponent>,
    Seq<SComponent>,
    Seq<SComponent>,
)
    decreases moves.len(),
{
    if moves.len() == 0 {
        (seq![], seq![], v)
    } else {
        let (f, b, rest) = take_moves(v, moves.drop_last());
        if rest.len() == 0 {
            (f, b, rest)
        } else if moves.last() {
            (f.push(rest[0]), b, rest.drop_first())
        } else {
            (f, b.push(rest.last()), rest.drop_last())
        }
    }
}

/// Reading components from both ends in any interleaving takes each one
/// exactly once and the ends never cross: the items from the front, then
/// what is left, then the items from the back in reverse, are all the
/// components in order.
pub proof fn law_both_ends_take_each_once(v: Seq<SComponent>, moves: Seq<bool>)
    ensures
        ({
            let (f, b, rest) = take_moves(v, moves);
            f + rest + b.reverse() == v
        }),
    decreases moves.len(),
{
    if moves.len() == 0 {
        assert(Seq::<SComponent>::empty() + v + Seq::<SComponent>::empty().reverse() =~= v);
    } else {
        law_both_ends_take_each_once(v, moves.drop_last());
        let (f, b, rest) = take_moves(v, moves.drop_last());
        if rest.len() > 0 {
            if moves.last() {
                assert(f.push(rest[0]) + rest.drop_first() + b.reverse() =~= f + rest
                    + b.reverse());
            } else {
                assert(b.push(rest.last()).reverse() =~= seq![rest.last()] + b.reverse());
                assert(f + rest.drop_last() + b.push(rest.last()).reverse() =~= f + rest
                    + b.reverse());
            }
        }
    }
}

proof fn lemma_piece_names(p: Seq<char>)
    requires
        has_no_sep(p),
    ensures
        forall|i: int|
            0 <= i < piece(p).len() ==> (#[trigger] piece(p)[i] matches SComponent::Normal(n)
                ==> is_name(n)),
{
}

proof fn lemma_body_names(s: Seq<char>)
    ensures
        forall|i: int|
            0 <= i < body(s).len() ==> (#[trigger] body(s)[i] matches SComponent::Normal(n)
                ==> is_name(n)),
    decreases s.len(),
{
    if s.len() > 0 {
        lemma_sep_index(s);
        let i = sep_index(s);
        if i < s.len() {
            let a = s.take(i);
            assert(has_no_sep(a)) by {
                assert forall|k: int| 0 <= k < a.len() implies !is_sep(#[trigger] a[k]) by {
                    assert(a[k] == s[k]);
                }
            }
            lemma_piece_names(a);
            lemma_body_names(s.skip(i + 1));
            let x = piece(a);
            let y = body(s.skip(i + 1));
            assert(body(s) == x + y);
            assert forall|k: int| 0 <= k < (x + y).len() implies (#[trigger] (x + y)[k] matches SComponent::Normal(
                n,
            ) ==> is_name(n)) by {
                if k < x.len() {
                    assert((x + y)[k] == x[k]);
                } else {
                    assert((x + y)[k] == y[k - x.len()]);
                }
            }
        } else {
            assert(has_no_sep(s));
            lemma_piece_names(s);
        }
    }
}

/// The text of any component of a path reads back as that single
/// component.
pub proof fn law_component_text_reads_back(p: Seq<char>, i: int)
    requires
        0 <= i < spec_components(p).len(),
    ensures
        spec_components(component_chars(spec_components(p)[i])) == seq![spec_components(p)[i]],
{
    let h = head(p);
    let b = body(p.skip(head_len(p)));
    lemma_body_names(p.skip(head_len(p)));
    assert(spec_components(p) == h + b);
    let c = spec_components(p)[i];
    if i >= h.len() {
        assert(c == b[i - h.len()]);
    }
    match c {
        SComponent::RootDir => {
            let t = seq!['/'];
            assert(t.skip(1) =~= Seq::<char>::empty());
            assert(body(Seq::<char>::empty()) =~= Seq::<SComponent>::empty());
            assert(spec_components(t) =~= seq![c]);
        },
        SComponent::CurDir => {
            let t = seq!['.'];
            assert(t.skip(1) =~= Seq::<char>::empty());
            assert(body(Seq::<char>::empty()) =~= Seq::<SComponent>::empty());
            assert(spec_components(t) =~= seq![c]);
        },
        SComponent::ParentDir => {
            let t = seq!['.', '.'];
            assert(!starts_with_cur_dir(t));
            assert(t.skip(0) =~= t);
            assert(has_no_sep(t));
            crate::path_spec::lemma_body_no_sep(t);
            assert(piece(t) =~= seq![SComponent::ParentDir]);
            assert(spec_components(t) =~= seq![c]);
        },
        SComponent::Normal(n) => {
            assert(is_name(n));
            assert(has_no_sep(n));
            crate::path_spec::lemma_body_no_sep(n);
            if n.len() > 1 && n[0] == '.' {
                assert(!is_sep(n[1]));
            }
            if n.len() == 1 && n[0] == '.' {
                assert(n =~= seq!['.']);
            }
            assert(!is_sep(n[0]));
            assert(n.skip(0) =~= n);
            assert(spec_components(n) =~= seq![c]);
        },
    }
}

} // verus!
