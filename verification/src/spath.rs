//! Borrowed and owned `/`-separated paths.
use vstd::prelude::*;
use vstd::string::*;

use crate::components::{component_eq, Components};
use crate::components::Component;
use crate::path_spec::{
    component_chars, has_parent, is_parent_path, is_sep, spec_components, spec_file_name,
    spec_parent, starts_with_sep, head_len, cut_last, trim_end, ends_with_noise, piece, sep_index,
    SComponent,
};
use crate::text::char_len;

verus! {

/// A borrowed path: a string slice read as `/`-separated components.
#[derive(Clone, Copy, Debug, Eq)]
pub struct SPath<'a> {
    inner: &'a str,
}

impl<'a> View for SPath<'a> {
    type V = Seq<char>;

    closed spec fn view(&self) -> Seq<char> {
        self.inner@
    }
}

impl<'a> SPath<'a> {
    /// Reads a string slice as a path.
    pub fn new(s: &'a str) -> (r: SPath<'a>)
        ensures
            r@ == s@,
    {
        SPath { inner: s }
    }

    /// The text of the path.
    pub fn as_str(&self) -> (r: &'a str)
        ensures
            r@ == self@,
    {
        self.inner
    }

    /// The components of the path.
    pub fn components(&self) -> (r: Components<'a>)
        ensures
            r.wf(),
            r@ == spec_components(self@),
            r.front_is_start(),
            r.body_pending(),
            r.spec_path() == self@,
            r.back_pending(),
            r.len_before_body_spec() == head_len(self@),
    {
        Components::of(self.inner)
    }

    /// Whether the path starts at the root.
    pub fn is_absolute(&self) -> (r: bool)
        ensures
            r == starts_with_sep(self@),
    {
        let n = char_len(self.inner);
        n > 0 && self.inner.get_char(0) == '/'
    }

    /// Whether the path does not start at the root.
    pub fn is_relative(&self) -> (r: bool)
        ensures
            r == !starts_with_sep(self@),
    {
        !self.is_absolute()
    }

    /// Whether the path has a root.
    pub fn has_root(&self) -> (r: bool)
        ensures
            r == starts_with_sep(self@),
    {
        self.is_absolute()
    }

    /// The path without its last component; `None` when the path is empty or
    /// only a root.
    pub fn parent(&self) -> (r: Option<SPath<'a>>)
        ensures
            match r {
                Some(q) => has_parent(self@) && q@ == spec_parent(self@) && is_parent_path(
                    q@,
                    self@,
                ),
                None => !has_parent(self@),
            },
    {
        let mut comps = self.components();
        let ghost all = comps@;
        let ghost p1 = comps.spec_path();
        let comp = comps.next_back();
        match comp {
            Some(Component::RootDir) => {
                assert(all.last() == SComponent::RootDir);
                None
            },
            Some(c) => {
                let ghost mid = comps.spec_path();
                let q = comps.as_spath();
                assert(q@ =~= self@.subrange(0, q@.len() as int));
                proof {
                    let l = head_len(self@);
                    if !(c@ is RootDir) && !(c@ is CurDir) {
                        let x = cut_last(trim_end(self@.skip(l)));
                        assert(mid.take(l) =~= self@.take(l));
                        assert(mid.skip(l) =~= x);
                    }
                }
                Some(q)
            },
            None => None,
        }
    }

    /// The last component, if it is a name.
    pub fn file_name(&self) -> (r: Option<&'a str>)
        ensures
            match r {
                Some(n) => spec_file_name(self@) == Some(n@),
                None => spec_file_name(self@) is None,
            },
    {
        let mut comps = self.components();
        match comps.next_back() {
            Some(Component::Normal(p)) => Some(p),
            _ => None,
        }
    }

    /// The path with the components of `base` taken off its front.
    pub fn strip_prefix(&self, base: SPath) -> (r: Result<SPath<'a>, StripPrefixError>)
        ensures
            match r {
                Ok(q) => spec_components(base@).is_prefix_of(spec_components(self@))
                    && spec_components(q@) == spec_components(self@).skip(
                    spec_components(base@).len() as int,
                ) && !ends_with_noise(q@) && (exists|i: int|
                    0 <= i && i + q@.len() <= self@.len() && q@ == #[trigger] self@.subrange(
                        i,
                        i + q@.len(),
                    )) && (spec_components(base@).len() > 0 ==> (q@.len() > 0 ==> piece(
                    q@.take(sep_index(q@)),
                ).len() > 0) && exists|k: int|
                    0 <= k <= self@.len() && q@ == trim_end(#[trigger] self@.skip(k))),
                Err(_) => !spec_components(base@).is_prefix_of(spec_components(self@)),
            },
    {
        let all = self.components();
        match iter_after(all, base.components()) {
            Some(c) => {
                let q = c.as_spath();
                proof {
                    let t = c.spec_path();
                    let off = self@.len() - t.len();
                    let i = choose|i: int|
                        0 <= i && i + q@.len() <= t.len() && q@ == #[trigger] t.subrange(
                            i,
                            i + q@.len(),
                        );
                    assert(q@ =~= self@.subrange(off + i, off + i + q@.len()));
                    assert(t == self@.skip(off));
                    if spec_components(base@).len() > 0 {
                        assert(c.back_pending() && !c.front_is_start());
                        let k = choose|k: int|
                            0 <= k <= t.len() && q@ == trim_end(#[trigger] t.skip(k));
                        assert(t.skip(k) =~= self@.skip(off + k));
                    }
                }
                Ok(q)
            },
            None => Err(StripPrefixError),
        }
    }

    /// Whether the components of `base` begin the components of the path.
    pub fn starts_with(&self, base: SPath) -> (r: bool)
        ensures
            r == spec_components(base@).is_prefix_of(spec_components(self@)),
    {
        iter_after(self.components(), base.components()).is_some()
    }

    /// Whether the components of `child` end the components of the path.
    pub fn ends_with(&self, child: SPath) -> (r: bool)
        ensures
            r == spec_components(child@).is_suffix_of(spec_components(self@)),
    {
        iter_after_back(self.components(), child.components()).is_some()
    }

    /// The path as an owned string.
    pub fn to_string(&self) -> (r: String)
        ensures
            r@ == self@,
    {
        String::from_str(self.inner)
    }

    /// An owned copy of the path.
    pub fn to_spath_buf(&self) -> (r: SPathBuf)
        ensures
            r@ == self@,
    {
        SPathBuf::from_string(self.to_string())
    }

    /// The path and then each of its successive parents.
    pub fn ancestors(&self) -> (r: Ancestors<'a>)
        ensures
            r.spec_next() == Some(*self),
    {
        Ancestors { next: Some(*self) }
    }

    /// The components of the path as text.
    pub fn iter(&self) -> (r: Iter<'a>)
        ensures
            r.wf(),
            r@ == spec_components(self@),
            r.spec_text() == self@,
    {
        Iter { inner: self.components() }
    }
}

/// Whether two iterators have the same components left.
pub fn components_eq(a: Components, b: Components) -> (r: bool)
    requires
        a.wf(),
        b.wf(),
    ensures
        r == (a@ == b@),
{
    if a.same_state(&b) {
        return true;
    }
    let ghost a0 = a@;
    let ghost b0 = b@;
    let mut x = a;
    let mut y = b;
    let ghost mut done: Seq<SComponent> = seq![];
    loop
        invariant
            x.wf(),
            y.wf(),
            a0 == a@,
            b0 == b@,
            a0 == x@ + done,
            b0 == y@ + done,
        decreases x@.len(),
    {
        let ghost xs = x@;
        let ghost ys = y@;
        match (x.next_back(), y.next_back()) {
            (Some(p), Some(q)) => {
                if !component_eq(&p, &q) {
                    proof {
                        assert(a0[xs.len() - 1] == p@);
                        assert(b0[ys.len() - 1] == q@);
                        if xs.len() != ys.len() {
                            assert(a0.len() != b0.len());
                        }
                    }
                    return false;
                }
                proof {
                    done = seq![p@] + done;
                    assert(a0 =~= x@ + done);
                    assert(b0 =~= y@ + done);
                }
            },
            (None, None) => {
                assert(a0 =~= b0);
                return true;
            },
            _ => {
                assert(a0.len() != b0.len());
                return false;
            },
        }
    }
}

/// The error of `strip_prefix`: the base is not a prefix of the path.
#[derive(Debug, Clone, Copy, PartialEq, Eq, Structural)]
pub struct StripPrefixError;

impl StripPrefixError {
    /// A description of the error.
    pub fn description(&self) -> (r: &'static str)
        ensures
            r@ == "prefix not found"@,
    {
        "prefix not found"
    }
}

impl<'a> PartialEq for SPath<'a> {
    fn eq(&self, other: &Self) -> (r: bool) {
        components_eq(self.components(), other.components())
    }
}

impl<'a> vstd::std_specs::cmp::PartialEqSpecImpl for SPath<'a> {
    open spec fn obeys_eq_spec() -> bool {
        true
    }

    open spec fn eq_spec(&self, other: &Self) -> bool {
        spec_components(self@) == spec_components(other@)
    }
}

/// Iterates over the path and its ancestors.
#[derive(Clone, Copy, Debug)]
pub struct Ancestors<'a> {
    next: Option<SPath<'a>>,
}

impl<'a> Ancestors<'a> {
    pub closed spec fn spec_next(&self) -> Option<SPath<'a>> {
        self.next
    }

    /// Gives the current path and moves on to its parent.
    pub fn next(&mut self) -> (r: Option<SPath<'a>>)
        ensures
            r == old(self).spec_next(),
            match final(self).spec_next() {
                Some(q) => r is Some && has_parent(r->0@) && q@ == spec_parent(r->0@) && is_parent_path(
                    q@,
                    r->0@,
                ),
                None => r is None || !has_parent(r->0@),
            },
    {
        let next = self.next;
        self.next = match next {
            Some(p) => p.parent(),
            None => None,
        };
        next
    }
}

/// The components of a path as text.
#[derive(Clone, Copy, Debug)]
pub struct Iter<'a> {
    inner: Components<'a>,
}

impl<'a> View for Iter<'a> {
    type V = Seq<SComponent>;

    closed spec fn view(&self) -> Seq<SComponent> {
        self.inner@
    }
}

impl<'a> Iter<'a> {
    pub closed spec fn wf(&self) -> bool {
        self.inner.wf()
    }

    /// The text that the remaining components are read from.
    pub closed spec fn spec_text(&self) -> Seq<char> {
        self.inner.spec_path()
    }

    /// The text of the next component from the front.
    pub fn next(&mut self) -> (r: Option<&'a str>)
        requires
            old(self).wf(),
        ensures
            final(self).wf(),
            final(self).spec_text() == old(self).spec_text().skip(
                old(self).spec_text().len() - final(self).spec_text().len(),
            ),
            final(self).spec_text().len() <= old(self).spec_text().len(),
            match r {
                Some(s) => old(self)@.len() > 0 && s@ == component_chars(old(self)@[0]) && final(self)@ == old(self)@.drop_first(),
                None => old(self)@.len() == 0 && final(self)@.len() == 0,
            },
    {
        match self.inner.next() {
            Some(c) => Some(c.as_str()),
            None => None,
        }
    }

    /// The text of the next component from the back.
    pub fn next_back(&mut self) -> (r: Option<&'a str>)
        requires
            old(self).wf(),
        ensures
            final(self).wf(),
            final(self).spec_text() == old(self).spec_text().take(
                final(self).spec_text().len() as int,
            ),
            final(self).spec_text().len() <= old(self).spec_text().len(),
            match r {
                Some(s) => old(self)@.len() > 0 && s@ == component_chars(old(self)@.last())
                    && final(self)@ == old(self)@.drop_last(),
                None => old(self)@.len() == 0 && final(self)@.len() == 0,
            },
    {
        match self.inner.next_back() {
            Some(c) => Some(c.as_str()),
            None => None,
        }
    }

    /// The part of the path that the remaining components come from.
    pub fn as_spath(&self) -> (r: SPath<'a>)
        requires
            self.wf(),
        ensures
            spec_components(r@) == self@,
            !ends_with_noise(r@),
            exists|i: int|
                0 <= i && i + r@.len() <= self.spec_text().len() && r@ == #[trigger] self.spec_text().subrange(
                    i,
                    i + r@.len(),
                ),
    {
        let r = self.inner.as_spath();
        proof {
            let t = self.inner.spec_path();
            let i = choose|i: int|
                0 <= i && i + r@.len() <= t.len() && r@ == #[trigger] t.subrange(i, i + r@.len());
            assert(r@ == self.spec_text().subrange(i, i + r@.len()));
        }
        r
    }
}


/// An owned path.
#[derive(Debug, Eq)]
pub struct SPathBuf {
    inner: String,
}

impl View for SPathBuf {
    type V = Seq<char>;

    closed spec fn view(&self) -> Seq<char> {
        self.inner@
    }
}

/// The text of `buf` after pushing `path` onto it: an absolute `path`
/// replaces it, a relative one is joined to it with a separator if needed.
pub open spec fn spec_push(buf: Seq<char>, path: Seq<char>) -> Seq<char> {
    if starts_with_sep(path) {
        path
    } else if buf.len() > 0 && !is_sep(buf.last()) {
        buf + seq!['/'] + path
    } else {
        buf + path
    }
}

/// The text of `buf` after pushing each of `parts` in turn.
pub open spec fn spec_push_all(buf: Seq<char>, parts: Seq<Seq<char>>) -> Seq<char>
    decreases parts.len(),
{
    if parts.len() == 0 {
        buf
    } else {
        spec_push_all(spec_push(buf, parts[0]), parts.drop_first())
    }
}

/// The texts of a sequence of components.
pub open spec fn component_texts(cs: Seq<SComponent>) -> Seq<Seq<char>> {
    cs.map_values(|c: SComponent| component_chars(c))
}

impl SPathBuf {
    /// Pushes the text of each component that `parts` has left, in order.
    pub fn extend(&mut self, parts: Iter)
        requires
            parts.wf(),
        ensures
            final(self)@ == spec_push_all(old(self)@, component_texts(parts@)),
    {
        let ghost all = component_texts(parts@);
        let ghost start = self@;
        let mut rest = parts;
        assert(all.skip(0) =~= all);
        loop
            invariant
                rest.wf(),
                all == component_texts(parts@),
                start == old(self)@,
                spec_push_all(start, all) == spec_push_all(self@, component_texts(rest@)),
            decreases rest@.len(),
        {
            let ghost before = rest@;
            match rest.next() {
                Some(s) => {
                    let ghost b = self@;
                    self.push(SPath::new(s));
                    assert(component_texts(before) =~= seq![s@] + component_texts(rest@));
                    assert(component_texts(before).drop_first() =~= component_texts(rest@));
                },
                None => {
                    assert(component_texts(rest@) =~= Seq::<Seq<char>>::empty());
                    assert(spec_push_all(self@, component_texts(rest@)) == self@);
                    return;
                },
            }
        }
    }

    /// An empty path.
    pub fn new() -> (r: SPathBuf)
        ensures
            r@ == Seq::<char>::empty(),
    {
        SPathBuf { inner: String::new() }
    }

    /// An empty path with room for `capacity` bytes.
    pub fn with_capacity(capacity: usize) -> (r: SPathBuf)
        requires
            capacity <= isize::MAX,
        ensures
            r@ == Seq::<char>::empty(),
    {
        SPathBuf { inner: string_with_capacity(capacity) }
    }

    /// A path holding `s`.
    pub fn from_string(s: String) -> (r: SPathBuf)
        ensures
            r@ == s@,
    {
        SPathBuf { inner: s }
    }

    /// A path holding a copy of `s`.
    pub fn from_str(s: &str) -> (r: SPathBuf)
        ensures
            r@ == s@,
    {
        SPathBuf { inner: String::from_str(s) }
    }

    /// The text of the path, as an owned string.
    pub fn into_string(self) -> (r: String)
        ensures
            r@ == self@,
    {
        self.inner
    }

    /// A copy of the text of the path.
    pub fn to_string(&self) -> (r: String)
        ensures
            r@ == self@,
    {
        String::from_str(self.inner.as_str())
    }

    /// The text of the path.
    pub fn as_str(&self) -> (r: &str)
        ensures
            r@ == self@,
    {
        self.inner.as_str()
    }

    /// The path, borrowed.
    pub fn as_spath(&self) -> (r: SPath<'_>)
        ensures
            r@ == self@,
    {
        SPath::new(self.inner.as_str())
    }

    /// Gives up ownership of the text, which then lives for the rest of the
    /// program.
    pub fn leak<'b>(self) -> (r: SPath<'b>)
        ensures
            r@ == self@,
    {
        SPath::new(string_leak(self.inner))
    }

    /// Extends the path with `path`; an absolute `path` replaces it.
    pub fn push(&mut self, path: SPath)
        ensures
            final(self)@ == spec_push(old(self)@, path@),
    {
        let n = char_len(self.inner.as_str());
        let need_sep = n > 0 && self.inner.as_str().get_char(n - 1) != '/';
        if path.is_absolute() {
            self.inner = String::new();
        } else if need_sep {
            self.inner.append("/");
            proof {
                reveal_strlit("/");
            }
        }
        self.inner.append(path.as_str());
        assert(final(self)@ =~= spec_push(old(self)@, path@)) by {
            reveal_strlit("/");
        }
    }

    /// Truncates the path to its parent; gives `false` and leaves the path
    /// alone if it has none.
    pub fn pop(&mut self) -> (r: bool)
        ensures
            r == has_parent(old(self)@),
            r ==> final(self)@ == spec_parent(old(self)@) && is_parent_path(
                final(self)@,
                old(self)@,
            ),
            !r ==> final(self)@ == old(self)@,
    {
        let parent = match self.as_spath().parent() {
            Some(p) => Some(p.to_string()),
            None => None,
        };
        match parent {
            Some(p) => {
                self.inner = p;
                true
            },
            None => false,
        }
    }

    /// Lowers the capacity to fit the text.
    pub fn shrink_to_fit(&mut self)
        ensures
            final(self)@ == old(self)@,
    {
        string_shrink_to_fit(&mut self.inner)
    }

    /// Lowers the capacity, to no less than `min_capacity`.
    pub fn shrink_to(&mut self, min_capacity: usize)
        ensures
            final(self)@ == old(self)@,
    {
        string_shrink_to(&mut self.inner, min_capacity)
    }

    /// A copy of the path.
    pub fn clone(&self) -> (r: SPathBuf)
        ensures
            r@ == self@,
    {
        SPathBuf { inner: self.inner.clone() }
    }
}

impl PartialEq for SPathBuf {
    fn eq(&self, other: &Self) -> (r: bool) {
        components_eq(self.as_spath().components(), other.as_spath().components())
    }
}

impl vstd::std_specs::cmp::PartialEqSpecImpl for SPathBuf {
    open spec fn obeys_eq_spec() -> bool {
        true
    }

    open spec fn eq_spec(&self, other: &Self) -> bool {
        spec_components(self@) == spec_components(other@)
    }
}

/// `String::with_capacity`: an empty string with room for `capacity` bytes.
/// It panics when `capacity` exceeds `isize::MAX` bytes.
#[verifier::external_body]
fn string_with_capacity(capacity: usize) -> (r: String)
    requires
        capacity <= isize::MAX,
    ensures
        r@ == Seq::<char>::empty(),
{
    String::with_capacity(capacity)
}

/// `String::leak`: the text of the string, now owned by no one.
#[verifier::external_body]
fn string_leak<'b>(s: String) -> (r: &'b str)
    ensures
        r@ == s@,
{
    s.leak()
}

/// `String::shrink_to_fit`: lowers the capacity and keeps the text.
#[verifier::external_body]
fn string_shrink_to_fit(s: &mut String)
    ensures
        final(s)@ == old(s)@,
{
    s.shrink_to_fit()
}

/// `String::shrink_to`: lowers the capacity and keeps the text.
#[verifier::external_body]
fn string_shrink_to(s: &mut String, min_capacity: usize)
    ensures
        final(s)@ == old(s)@,
{
    s.shrink_to(min_capacity)
}

} // verus!

verus! {

/// Takes the components of `prefix` off the front of `iter`; gives back what
/// is left of `iter` if they all match, and `None` otherwise.
pub fn iter_after<'a, 'b>(iter: Components<'a>, prefix: Components<'b>) -> (r: Option<
    Components<'a>,
>)
    requires
        iter.wf(),
        prefix.wf(),
    ensures
        match r {
            Some(c) => c.wf() && prefix@.is_prefix_of(iter@) && c@ == iter@.skip(prefix@.len() as int)
                && c.spec_path().len() <= iter.spec_path().len() && c.spec_path()
                == iter.spec_path().skip(iter.spec_path().len() - c.spec_path().len()) && (
                iter.back_pending() ==> c.back_pending()) && (prefix@.len() > 0
                ==> !c.front_is_start()),
            None => !prefix@.is_prefix_of(iter@),
        },
{
    let ghost iter0 = iter@;
    let ghost text0 = iter.spec_path();
    let ghost prefix0 = prefix@;
    let mut it = iter;
    let mut pre = prefix;
    let ghost mut done: Seq<SComponent> = seq![];
    loop
        invariant
            it.wf(),
            pre.wf(),
            iter0 == iter@,
            prefix0 == prefix@,
            iter0 == done + it@,
            prefix0 == done + pre@,
            text0 == iter.spec_path(),
            it.spec_path().len() <= text0.len(),
            it.spec_path() == text0.skip(text0.len() - it.spec_path().len()),
            iter.back_pending() ==> it.back_pending(),
            done.len() > 0 ==> !it.front_is_start(),
        decreases it@.len(),
    {
        let mut it_next = it;
        let a = it_next.next();
        let b = pre.next();
        match (a, b) {
            (Some(x), Some(y)) => {
                if !component_eq(&x, &y) {
                    proof {
                        assert(iter0[done.len() as int] == x@);
                        assert(prefix0[done.len() as int] == y@);
                        if prefix0.is_prefix_of(iter0) {
                            assert(prefix0[done.len() as int] == iter0.subrange(0, prefix0.len() as int)[done.len() as int]);
                        }
                    }
                    return None;
                }
                proof {
                    done = done.push(x@);
                    assert(iter0 =~= done + it_next@);
                    assert(prefix0 =~= done + pre@);
                    assert(it_next.spec_path() =~= text0.skip(
                        text0.len() - it_next.spec_path().len(),
                    )) by {
                        assert(it_next.spec_path() == it.spec_path().skip(
                            it.spec_path().len() - it_next.spec_path().len(),
                        ));
                    }
                }
            },
            (Some(_), None) => {
                assert(prefix0 =~= done);
                assert(prefix0 =~= iter0.subrange(0, prefix0.len() as int));
                assert(it@ =~= iter0.skip(prefix0.len() as int));
                return Some(it);
            },
            (None, None) => {
                assert(prefix0 =~= done);
                assert(iter0 =~= done);
                assert(it@ =~= iter0.skip(prefix0.len() as int));
                return Some(it);
            },
            (None, Some(_)) => {
                assert(iter0 =~= done);
                return None;
            },
        }
        it = it_next;
    }
}

/// Takes the components of `suffix` off the back of `iter`; gives back what
/// is left of `iter` if they all match, and `None` otherwise.
pub fn iter_after_back<'a, 'b>(iter: Components<'a>, suffix: Components<'b>) -> (r: Option<
    Components<'a>,
>)
    requires
        iter.wf(),
        suffix.wf(),
    ensures
        match r {
            Some(c) => c.wf() && suffix@.is_suffix_of(iter@) && c@ == iter@.take(
                iter@.len() - suffix@.len(),
            ),
            None => !suffix@.is_suffix_of(iter@),
        },
{
    let ghost iter0 = iter@;
    let ghost suffix0 = suffix@;
    let mut it = iter;
    let mut suf = suffix;
    let ghost mut done: Seq<SComponent> = seq![];
    loop
        invariant
            it.wf(),
            suf.wf(),
            iter0 == iter@,
            suffix0 == suffix@,
            iter0 == it@ + done,
            suffix0 == suf@ + done,
        decreases it@.len(),
    {
        let mut it_next = it;
        let a = it_next.next_back();
        let b = suf.next_back();
        match (a, b) {
            (Some(x), Some(y)) => {
                if !component_eq(&x, &y) {
                    proof {
                        let ki = iter0.len() - done.len() - 1;
                        let ks = suffix0.len() - done.len() - 1;
                        assert(iter0[ki] == x@);
                        assert(suffix0[ks] == y@);
                        if suffix0.is_suffix_of(iter0) {
                            assert(suffix0[ks] == iter0.subrange(iter0.len() - suffix0.len(), iter0.len() as int)[ks]);
                        }
                    }
                    return None;
                }
                proof {
                    done = seq![x@] + done;
                    assert(iter0 =~= it_next@ + done);
                    assert(suffix0 =~= suf@ + done);
                }
            },
            (Some(_), None) => {
                assert(suffix0 =~= done);
                assert(suffix0 =~= iter0.subrange(iter0.len() - suffix0.len(), iter0.len() as int));
                assert(it@ =~= iter0.take(iter0.len() - suffix0.len()));
                return Some(it);
            },
            (None, None) => {
                assert(suffix0 =~= done);
                assert(iter0 =~= done);
                assert(it@ =~= iter0.take(iter0.len() - suffix0.len()));
                return Some(it);
            },
            (None, Some(_)) => {
                assert(iter0 =~= done);
                return None;
            },
        }
        it = it_next;
    }
}

} // verus!
