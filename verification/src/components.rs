//! Splitting a path into its components, from the front and from the back.
use vstd::prelude::*;
use vstd::string::*;

use crate::path_spec::{
    body, component_chars, cut_last, ends_with_noise, trim_end, head, head_len, is_sep, last_sep_index,
    lemma_body_back, lemma_last_sep_index, lemma_sep_index, piece, sep_index, spec_components,
    starts_with_cur_dir, starts_with_sep, SComponent,
};
use crate::spath::SPath;
use crate::text::{char_len, first_sep, last_sep, str_eq};

verus! {

/// One component of a path.
#[derive(Clone, Copy, Debug)]
pub enum Component<'a> {
    RootDir,
    CurDir,
    ParentDir,
    Normal(&'a str),
}

impl<'a> View for Component<'a> {
    type V = SComponent;

    open spec fn view(&self) -> SComponent {
        match self {
            Component::RootDir => SComponent::RootDir,
            Component::CurDir => SComponent::CurDir,
            Component::ParentDir => SComponent::ParentDir,
            Component::Normal(p) => SComponent::Normal(p@),
        }
    }
}

impl<'a> Component<'a> {
    /// The text of the component: `/`, `.`, `..` or the name itself.
    pub fn as_str(self) -> (r: &'a str)
        ensures
            r@ == component_chars(self@),
    {
        match self {
            Component::RootDir => {
                proof {
                    reveal_strlit("/");
                }
                "/"
            },
            Component::CurDir => {
                proof {
                    reveal_strlit(".");
                }
                "."
            },
            Component::ParentDir => {
                proof {
                    reveal_strlit("..");
                }
                ".."
            },
            Component::Normal(p) => p,
        }
    }
}

/// Whether two components are the same.
pub fn component_eq(a: &Component, b: &Component) -> (r: bool)
    ensures
        r == (a@ == b@),
{
    match (a, b) {
        (Component::RootDir, Component::RootDir) => true,
        (Component::CurDir, Component::CurDir) => true,
        (Component::ParentDir, Component::ParentDir) => true,
        (Component::Normal(x), Component::Normal(y)) => str_eq(x, y),
        _ => false,
    }
}

impl<'a> PartialEq for Component<'a> {
    fn eq(&self, other: &Self) -> (r: bool) {
        component_eq(self, other)
    }
}

impl<'a> vstd::std_specs::cmp::PartialEqSpecImpl for Component<'a> {
    open spec fn obeys_eq_spec() -> bool {
        true
    }

    open spec fn eq_spec(&self, other: &Self) -> bool {
        self@ == other@
    }
}

/// The components that an optional component stands for.
pub open spec fn opt_components(o: Option<Component>) -> Seq<SComponent> {
    match o {
        Some(c) => seq![c@],
        None => seq![],
    }
}

/// Turns one separator-free piece into its component, if it has one.
fn parse_single_component<'b>(comp: &'b str) -> (r: Option<Component<'b>>)
    ensures
        opt_components(r) == piece(comp@),
{
    let n = char_len(comp);
    if n == 0 {
        None
    } else if n == 1 && comp.get_char(0) == '.' {
        assert(comp@ =~= seq!['.']);
        None
    } else if n == 2 && comp.get_char(0) == '.' && comp.get_char(1) == '.' {
        assert(comp@ =~= seq!['.', '.']);
        Some(Component::ParentDir)
    } else {
        assert(!(comp@ =~= seq!['.'])) by {
            if comp@ =~= seq!['.'] {
                assert(comp@[0] == '.');
            }
        }
        assert(!(comp@ =~= seq!['.', '.'])) by {
            if comp@ =~= seq!['.', '.'] {
                assert(comp@[0] == '.' && comp@[1] == '.');
            }
        }
        Some(Component::Normal(comp))
    }
}

/// Reads the first piece of a non-empty `path`: how many characters it
/// takes (with its separator) and the component it stands for.
fn parse_next_component<'b>(path: &'b str) -> (r: (usize, Option<Component<'b>>))
    requires
        path@.len() > 0,
    ensures
        1 <= r.0 <= path@.len(),
        opt_components(r.1) + body(path@.skip(r.0 as int)) == body(path@),
        opt_components(r.1) == piece(path@.take(sep_index(path@))),
{
    let n = char_len(path);
    let i = first_sep(path, 0, n);
    assert(path@.subrange(0, n as int) =~= path@);
    proof {
        lemma_sep_index(path@);
    }
    if i == n {
        let comp = parse_single_component(path);
        assert(path@.skip(n as int) =~= seq![]);
        assert(path@.take(i as int) =~= path@);
        (n, comp)
    } else {
        let piece_str = path.substring_char(0, i);
        let comp = parse_single_component(piece_str);
        assert(piece_str@ =~= path@.take(i as int));
        (i + 1, comp)
    }
}

/// Where a `Components` iterator stands at one of its two ends.
#[derive(Clone, Copy, Debug)]
pub enum State {
    StartDir,
    Body,
    Done,
}

/// The components of a path, taken from either end.
#[derive(Clone, Copy, Debug)]
pub struct Components<'a> {
    pub(crate) path: &'a str,
    pub(crate) has_physical_root: bool,
    pub(crate) front: State,
    pub(crate) back: State,
}

pub open spec fn front_rank(s: State) -> int {
    match s {
        State::StartDir => 0,
        State::Body => 1,
        State::Done => 2,
    }
}

/// Cutting a path at a separator (or right after its head) keeps its head.
pub proof fn lemma_head_prefix(p: Seq<char>, m: int)
    requires
        head_len(p) <= m <= p.len(),
        m == head_len(p) || is_sep(p[m]),
    ensures
        head(p.take(m)) == head(p),
        head_len(p.take(m)) == head_len(p),
        p.take(m).skip(head_len(p)) == p.subrange(head_len(p), m),
{
    let q = p.take(m);
    assert(q.skip(head_len(p)) =~= p.subrange(head_len(p), m));
    if starts_with_sep(p) {
        assert(q[0] == p[0]);
    } else if starts_with_cur_dir(p) {
        assert(q[0] == p[0]);
        if m >= 2 {
            assert(q[1] == p[1]);
        }
    } else {
        if m > 0 {
            assert(q[0] == p[0]);
            if m >= 2 {
                assert(q[1] == p[1]);
            }
        }
    }
}


/// A path whose first piece stands for a component has no head.
pub proof fn lemma_meaningful_start(p: Seq<char>)
    requires
        p.len() > 0 ==> piece(p.take(sep_index(p))).len() > 0,
    ensures
        head(p) == Seq::<SComponent>::empty(),
        head_len(p) == 0,
{
    lemma_sep_index(p);
    if starts_with_sep(p) {
        assert(p.take(0) =~= seq![]);
    } else if starts_with_cur_dir(p) {
        assert(sep_index(p) == 1);
        assert(p.take(1) =~= seq!['.']);
    }
}

impl<'a> Components<'a> {
    /// The components of `path`, none taken yet.
    pub fn of(path: &'a str) -> (r: Components<'a>)
        ensures
            r.wf(),
            r@ == spec_components(path@),
            r.front_is_start(),
            r.body_pending(),
            r.spec_path() == path@,
            r.back_pending(),
            r.len_before_body_spec() == head_len(path@),
    {
        let n = char_len(path);
        let has_physical_root = n > 0 && path.get_char(0) == '/';
        Components { path, has_physical_root, front: State::StartDir, back: State::Body }
    }

    /// The components of `path` read as a body: no root or leading `.`.
    pub fn body_of(path: &'a str) -> (r: Components<'a>)
        ensures
            r.wf(),
            r@ == body(path@),
    {
        Components { path, has_physical_root: false, front: State::Body, back: State::Body }
    }

    pub closed spec fn spec_path(&self) -> Seq<char> {
        self.path@
    }

    pub closed spec fn front_is_start(&self) -> bool {
        self.front is StartDir
    }

    pub closed spec fn finished_spec(&self) -> bool {
        ||| self.front is Done
        ||| self.back is Done
        ||| (self.front is Body && self.back is StartDir)
    }

    /// The invariant of the iterator.
    pub closed spec fn wf(&self) -> bool {
        &&& self.finished_spec() ==> self.path@.len() == 0
        &&& (!self.finished_spec() && self.front is StartDir) ==> self.has_physical_root
            == starts_with_sep(self.path@)
        &&& (!self.finished_spec() && self.back is StartDir) ==> self.path@.len() == head_len(
            self.path@,
        )
    }

    fn finished(&self) -> (r: bool)
        ensures
            r == self.finished_spec(),
    {
        match (self.front, self.back) {
            (State::Done, _) => true,
            (_, State::Done) => true,
            (State::Body, State::StartDir) => true,
            _ => false,
        }
    }

    fn include_cur_dir(&self) -> (r: bool)
        ensures
            r == (!self.has_physical_root && starts_with_cur_dir(self.path@)),
    {
        if self.has_physical_root {
            return false;
        }
        let n = char_len(self.path);
        if n == 0 {
            false
        } else if self.path.get_char(0) != '.' {
            false
        } else if n == 1 {
            true
        } else {
            self.path.get_char(1) == '/'
        }
    }

    fn len_before_body(&self) -> (n: usize)
        ensures
            n == (if self.front is StartDir && (self.has_physical_root || starts_with_cur_dir(
                self.path@,
            )) {
                1int
            } else {
                0int
            }),
    {
        match self.front {
            State::StartDir => {
                if self.has_physical_root || self.include_cur_dir() {
                    1
                } else {
                    0
                }
            },
            _ => 0,
        }
    }

    /// Reads the last piece of the body.
    fn parse_next_component_back(&self) -> (r: (usize, Option<Component<'a>>))
        requires
            self.len_before_body_spec() < self.path@.len(),
        ensures
            ({
                let start = self.len_before_body_spec();
                let n = self.path@.len() as int;
                let t = self.path@.subrange(start, n);
                &&& 1 <= r.0 <= n - start
                &&& body(self.path@.subrange(start, n)) == body(
                    self.path@.subrange(start, n - r.0),
                ) + opt_components(r.1)
                &&& (n - r.0 == start || is_sep(self.path@[n - r.0]))
                &&& opt_components(r.1) == piece(t.skip(last_sep_index(t) + 1))
                &&& n - r.0 == start + (if last_sep_index(t) < 0 {
                    0
                } else {
                    last_sep_index(t)
                })
            }),
    {
        let start = self.len_before_body();
        let n = char_len(self.path);
        let ghost t = self.path@.subrange(start as int, n as int);
        proof {
            lemma_body_back(t);
            lemma_last_sep_index(t);
        }
        match last_sep(self.path, start, n) {
            None => {
                let comp_str = self.path.substring_char(start, n);
                let comp = parse_single_component(comp_str);
                assert(self.path@.subrange(start as int, start as int) =~= seq![]);
                assert(t.skip(0) =~= t);
                (n - start, comp)
            },
            Some(j) => {
                let comp_str = self.path.substring_char(start + j + 1, n);
                let comp = parse_single_component(comp_str);
                assert(comp_str@ =~= t.skip(j + 1));
                assert(self.path@.subrange(start as int, (start + j) as int) =~= t.take(
                    j as int,
                ));
                assert(t[j as int] == self.path@[start + j]);
                (n - start - j, comp)
            },
        }
    }

    pub closed spec fn len_before_body_spec(&self) -> int {
        if self.front is StartDir && (self.has_physical_root || starts_with_cur_dir(self.path@)) {
            1int
        } else {
            0int
        }
    }

    /// Takes the next component from the front.
    pub fn next(&mut self) -> (r: Option<Component<'a>>)
        requires
            old(self).wf(),
        ensures
            final(self).wf(),
            final(self).spec_path() == old(self).spec_path().skip(
                old(self).spec_path().len() - final(self).spec_path().len(),
            ),
            final(self).spec_path().len() <= old(self).spec_path().len(),
            final(self).back_unchanged(*old(self)),
            old(self).back_pending() ==> final(self).back_pending(),
            r is Some ==> !final(self).front_is_start(),
            match r {
                None => old(self)@.len() == 0 && final(self)@.len() == 0,
                Some(c) => old(self)@.len() > 0 && c@ == old(self)@[0] && final(self)@ == old(self)@.drop_first(),
            },
    {
        let ghost old_path = self.path@;
        while !self.finished()
            invariant
                self.wf(),
                self@ == old(self)@,
                old_path == old(self).path@,
                self.path@ == old_path.skip(old_path.len() - self.path@.len()),
                self.path@.len() <= old_path.len(),
                self.back == old(self).back,
                self.has_physical_root == old(self).has_physical_root,
            decreases 3 * self.path@.len() + 2 - front_rank(self.front),
        {
            match self.front {
                State::StartDir => {
                    let cur = self.include_cur_dir();
                    self.front = State::Body;
                    if self.has_physical_root || cur {
                        let n = char_len(self.path);
                        let ghost p = self.path@;
                        self.path = self.path.substring_char(1, n);
                        assert(self.path@ =~= old_path.skip(old_path.len() - self.path@.len()));
                        assert(self.path@ =~= p.skip(1));
                        assert(self.spec_path() == old(self).spec_path().skip(
                            old(self).spec_path().len() - self.spec_path().len(),
                        ));
                        if self.has_physical_root {
                            assert(old(self)@ =~= seq![SComponent::RootDir] + self@);
                            return Some(Component::RootDir);
                        } else {
                            assert(old(self)@ =~= seq![SComponent::CurDir] + self@);
                            return Some(Component::CurDir);
                        }
                    }
                    assert(self.path@.skip(0) =~= self.path@);
                },
                State::Body => {
                    let n = char_len(self.path);
                    if n > 0 {
                        let (size, comp) = parse_next_component(self.path);
                        let ghost p = self.path@;
                        self.path = self.path.substring_char(size, n);
                        assert(self.path@ =~= p.skip(size as int));
                        assert(self.path@ =~= old_path.skip(old_path.len() - self.path@.len()));
                        if comp.is_some() {
                            assert(old(self)@ =~= seq![comp.unwrap()@] + self@);
                            return comp;
                        }
                        assert(self@ =~= old(self)@);
                    } else {
                        self.front = State::Done;
                    }
                },
                State::Done => {
                    assert(false);
                },
            }
        }
        None
    }

    pub closed spec fn back_unchanged(&self, other: Components) -> bool {
        self.back == other.back
    }

    /// Nothing has been taken from the back.
    pub closed spec fn back_pending(&self) -> bool {
        self.back is Body
    }


    /// Drops the last piece of the body, giving back its component if any.
    fn pop_back_piece(&mut self) -> (r: Option<Component<'a>>)
        requires
            old(self).wf(),
            !old(self).finished_spec(),
            old(self).back is Body,
            old(self).len_before_body_spec() < old(self).path@.len(),
        ensures
            final(self).wf(),
            !final(self).finished_spec(),
            final(self).back is Body,
            final(self).front == old(self).front,
            final(self).has_physical_root == old(self).has_physical_root,
            final(self).path@.len() < old(self).path@.len(),
            final(self).path@ == old(self).path@.take(final(self).path@.len() as int),
            old(self)@ == final(self)@ + opt_components(r),
            r is Some ==> old(self).tight_end(),
            final(self).path@.len() == old(self).len_before_body_spec() || is_sep(
                old(self).path@[final(self).path@.len() as int],
            ),
            final(self).len_before_body_spec() == old(self).len_before_body_spec(),
            final(self).path@.take(old(self).len_before_body_spec()) == old(self).path@.take(
                old(self).len_before_body_spec(),
            ),
            final(self).path@.skip(old(self).len_before_body_spec()) == cut_last(
                old(self).path@.skip(old(self).len_before_body_spec()),
            ),
            r is None ==> trim_end(final(self).path@.skip(old(self).len_before_body_spec()))
                == trim_end(old(self).path@.skip(old(self).len_before_body_spec())),
            r is Some ==> trim_end(old(self).path@.skip(old(self).len_before_body_spec())) == old(
                self,
            ).path@.skip(old(self).len_before_body_spec()),
    {
        let start = self.len_before_body();
        let n = char_len(self.path);
        let (size, comp) = self.parse_next_component_back();
        let ghost p = self.path@;
        self.path = self.path.substring_char(0, n - size);
        assert(self.path@ =~= p.take(n - size));
        proof {
            if self.front is StartDir {
                lemma_head_prefix(p, n - size);
                assert(p.skip(start as int) =~= p.subrange(start as int, n as int));
                assert(self.path@.skip(start as int) =~= p.subrange(start as int, n - size));
            } else {
                assert(p =~= p.subrange(0, n as int));
                assert(self.path@ =~= p.subrange(0, n - size));
            }
        }
        proof {
            let t = p.subrange(start as int, n as int);
            assert(p.skip(start as int) =~= t);
            lemma_last_sep_index(t);
            assert(self.path@.take(start as int) =~= p.take(start as int));
            assert(self.path@.skip(start as int) =~= cut_last(t));
            if self.front is StartDir {
                lemma_head_prefix(p, n - size);
            }
        }
        comp
    }

    /// The last piece of the body stands for a component (or there is no body).
    pub closed spec fn tight_end(&self) -> bool {
        let b = self.path@.skip(self.len_before_body_spec());
        b.len() == 0 || piece(b.skip(last_sep_index(b) + 1)).len() > 0
    }

    /// Drops leading pieces that stand for no component.
    fn trim_left(&mut self)
        requires
            old(self).front is Body,
        ensures
            final(self).front == old(self).front,
            final(self).back == old(self).back,
            final(self).has_physical_root == old(self).has_physical_root,
            final(self).path@ == old(self).path@.skip(old(self).path@.len() - final(self).path@.len()),
            final(self).path@.len() <= old(self).path@.len(),
            body(final(self).path@) == body(old(self).path@),
            final(self).path@.len() > 0 ==> piece(
                final(self).path@.take(sep_index(final(self).path@)),
            ).len() > 0,
    {
        let ghost old_path = self.path@;
        let mut n = char_len(self.path);
        while n > 0
            invariant
                n == self.path@.len(),
                old_path == old(self).path@,
                self.path@ == old_path.skip(old_path.len() - self.path@.len()),
                self.path@.len() <= old_path.len(),
                body(self.path@) == body(old_path),
                self.front == old(self).front,
                self.back == old(self).back,
                self.has_physical_root == old(self).has_physical_root,
            decreases n,
        {
            let (size, comp) = parse_next_component(self.path);
            if comp.is_some() {
                return;
            }
            let ghost p = self.path@;
            self.path = self.path.substring_char(size, n);
            assert(self.path@ =~= p.skip(size as int));
            assert(self.path@ =~= old_path.skip(old_path.len() - self.path@.len()));
            assert(body(p) =~= body(self.path@));
            n = n - size;
        }
    }

    /// Drops trailing pieces that stand for no component.
    fn trim_right(&mut self)
        requires
            old(self).wf(),
            !old(self).finished_spec(),
            old(self).back is Body,
        ensures
            final(self).wf(),
            !final(self).finished_spec(),
            final(self).front == old(self).front,
            final(self).back == old(self).back,
            final(self).has_physical_root == old(self).has_physical_root,
            final(self).path@ == old(self).path@.take(final(self).path@.len() as int),
            final(self)@ == old(self)@,
            final(self).tight_end(),
            final(self).path@.len() <= old(self).path@.len(),
            final(self).len_before_body_spec() == old(self).len_before_body_spec(),
            final(self).path@.take(old(self).len_before_body_spec()) == old(self).path@.take(
                old(self).len_before_body_spec(),
            ),
            final(self).path@.skip(old(self).len_before_body_spec()) == trim_end(
                old(self).path@.skip(old(self).len_before_body_spec()),
            ),
            final(self).path@.len() == old(self).path@.len() || final(self).path@.len()
                == old(self).len_before_body_spec() || is_sep(
                old(self).path@[final(self).path@.len() as int],
            ),
    {
        let ghost old_path = self.path@;
        while self.len_before_body() < char_len(self.path)
            invariant
                self.wf(),
                !self.finished_spec(),
                old_path == old(self).path@,
                self.path@ == old_path.take(self.path@.len() as int),
                self.path@.len() <= old_path.len(),
                self@ == old(self)@,
                self.front == old(self).front,
                self.back == old(self).back,
                self.has_physical_root == old(self).has_physical_root,
                self.path@.len() == old_path.len() || self.path@.len() == old(self).len_before_body_spec() || is_sep(old_path[self.path@.len() as int]),
                self.len_before_body_spec() == old(self).len_before_body_spec(),
                self.path@.take(old(self).len_before_body_spec()) == old_path.take(
                    old(self).len_before_body_spec(),
                ),
                trim_end(self.path@.skip(old(self).len_before_body_spec())) == trim_end(
                    old_path.skip(old(self).len_before_body_spec()),
                ),
            decreases self.path@.len(),
        {
            let mut probe = *self;
            let comp = probe.pop_back_piece();
            if comp.is_some() {
                assert(trim_end(self.path@.skip(self.len_before_body_spec())) == self.path@.skip(
                    self.len_before_body_spec(),
                ));
                assert(self.path@.skip(old(self).len_before_body_spec()) == trim_end(
                    old(self).path@.skip(old(self).len_before_body_spec()),
                ));
                return;
            }
            let ghost before = self.path@;
            *self = probe;
            assert(self.path@ =~= old_path.take(self.path@.len() as int));
            proof {
                if self.path@.len() != old(self).len_before_body_spec() {
                    assert(old_path[self.path@.len() as int] == before[self.path@.len() as int]);
                }
            }
            assert(self@ =~= old(self)@);
        }
        assert(self.path@.skip(self.len_before_body_spec()) =~= seq![]);
        assert(trim_end(self.path@.skip(self.len_before_body_spec())) == self.path@.skip(
            self.len_before_body_spec(),
        ));
    }

    /// Both ends are still to be read: the front has not passed the head and
    /// the back is in the body.
    pub closed spec fn body_pending(&self) -> bool {
        self.front is StartDir && self.back is Body
    }



    /// Both iterators read the same text, from the same front state, and
    /// neither has read from the back.
    pub closed spec fn spec_same_state(&self, other: Components) -> bool {
        &&& self.front == other.front
        &&& self.back is Body
        &&& other.back is Body
        &&& self.path@ == other.path@
    }

    /// Whether both iterators stand at the same place of the same text,
    /// which makes their remaining components equal.
    pub fn same_state(&self, other: &Components) -> (r: bool)
        requires
            self.wf(),
            other.wf(),
        ensures
            r == self.spec_same_state(*other),
            r ==> self@ == other@,
    {
        let same_front = match (self.front, other.front) {
            (State::StartDir, State::StartDir) => true,
            (State::Body, State::Body) => true,
            (State::Done, State::Done) => true,
            _ => false,
        };
        let both_body = match (self.back, other.back) {
            (State::Body, State::Body) => true,
            _ => false,
        };
        same_front && both_body && char_len(self.path) == char_len(other.path) && str_eq(
            self.path,
            other.path,
        )
    }

    /// The part of the path that the remaining components come from.
    pub fn as_spath(&self) -> (r: SPath<'a>)
        requires
            self.wf(),
        ensures
            spec_components(r@) == self@,
            self.front_is_start() ==> r@ == self.spec_path().take(r@.len() as int),
            self.front_is_start() ==> r@.len() <= self.spec_path().len(),
            self.body_pending() ==> r@ == self.spec_path().take(self.len_before_body_spec())
                + trim_end(self.spec_path().skip(self.len_before_body_spec())),
            !ends_with_noise(r@),
            exists|i: int|
                0 <= i && i + r@.len() <= self.spec_path().len() && r@ == #[trigger] self.spec_path().subrange(
                    i,
                    i + r@.len(),
                ),
            !self.front_is_start() && r@.len() > 0 ==> piece(r@.take(sep_index(r@))).len() > 0,
            !self.front_is_start() && self.back_pending() ==> exists|k: int|
                0 <= k <= self.spec_path().len() && r@ == trim_end(
                    #[trigger] self.spec_path().skip(k),
                ),
    {
        let mut comps = *self;
        match comps.front {
            State::Body => comps.trim_left(),
            _ => {},
        }
        let ghost trimmed = comps.path@;
        assert(trimmed.len() <= self.path@.len());
        proof {
            if comps.front is Body {
                lemma_meaningful_start(comps.path@);
            }
        }
        match comps.back {
            State::Body => {
                if !comps.finished() {
                    comps.trim_right();
                }
            },
            _ => {},
        }
        let r = SPath::new(comps.path);
        proof {
            let p = comps.path@;
            let start = self.path@.len() - trimmed.len();
            assert(trimmed == self.path@.skip(start));
            assert(p.len() <= trimmed.len());
            assert(p == trimmed.take(p.len() as int));
            assert forall|k: int| 0 <= k < p.len() implies p[k] == self.spec_path()[start + k] by {
                assert(p[k] == trimmed[k]);
                assert(trimmed[k] == self.path@[start + k]);
            }
            assert(p =~= self.spec_path().subrange(start, start + p.len()));
            if !(self.front is StartDir) {
                if self.back is Body {
                    if self.finished_spec() {
                        assert(trimmed =~= Seq::<char>::empty());
                        assert(self.spec_path().skip(start) == trimmed);
                        assert(trim_end(trimmed) =~= Seq::<char>::empty());
                    } else {
                        assert(comps.len_before_body_spec() == 0);
                        assert(p.skip(0) =~= p);
                        assert(trimmed.skip(0) =~= trimmed);
                        assert(p == trim_end(trimmed));
                    }
                    assert(p == trim_end(self.spec_path().skip(start)));
                }
                if p.len() > 0 {
                    lemma_sep_index(p);
                    lemma_sep_index(trimmed);
                    let s0 = sep_index(trimmed);
                    if sep_index(p) < s0 {
                        assert(p[sep_index(p)] == trimmed[sep_index(p)]);
                    }
                    if p.len() < trimmed.len() && p.len() < s0 {
                        assert(is_sep(trimmed[p.len() as int]));
                    }
                    assert(p.take(sep_index(p)) =~= trimmed.take(s0));
                }
            }
            if self.finished_spec() {
                assert(p =~= seq![]);
                assert(spec_components(p) =~= seq![]);
            } else if self.front is StartDir {
                if self.back is Body {
                    assert(spec_components(p) == comps@);
                    assert(p =~= p.take(self.len_before_body_spec()) + p.skip(
                        self.len_before_body_spec(),
                    ));
                } else {
                    assert(p.skip(head_len(p)) =~= seq![]);
                }
            } else {
                if p.len() < trimmed.len() {
                    lemma_head_prefix(trimmed, p.len() as int);
                    assert(trimmed.take(p.len() as int) =~= p);
                } else {
                    assert(trimmed =~= p);
                }
                assert(p.skip(0) =~= p);
            }
        }
        r
    }

    /// Takes the last component of the body, dropping trailing pieces that
    /// stand for none; `None` when the body has no component left, and then
    /// the path is cut down to its head.
    fn pop_body_component(&mut self) -> (r: Option<Component<'a>>)
        requires
            old(self).wf(),
            !old(self).finished_spec(),
            old(self).back is Body,
        ensures
            final(self).wf(),
            !final(self).finished_spec(),
            final(self).back is Body,
            final(self).front == old(self).front,
            final(self).has_physical_root == old(self).has_physical_root,
            final(self).path@.len() <= old(self).path@.len(),
            final(self).path@ == old(self).path@.take(final(self).path@.len() as int),
            final(self).len_before_body_spec() == old(self).len_before_body_spec(),
            final(self).path@.take(old(self).len_before_body_spec()) == old(self).path@.take(
                old(self).len_before_body_spec(),
            ),
            match r {
                Some(c) => {
                    &&& old(self)@ == final(self)@ + seq![c@]
                    &&& final(self).path@.skip(old(self).len_before_body_spec()) == cut_last(
                        trim_end(old(self).path@.skip(old(self).len_before_body_spec())),
                    )
                    &&& trim_end(old(self).path@.skip(old(self).len_before_body_spec())).len()
                        > 0
                },
                None => {
                    &&& old(self)@ == final(self)@
                    &&& final(self).path@.len() == old(self).len_before_body_spec()
                    &&& trim_end(old(self).path@.skip(old(self).len_before_body_spec())).len()
                        == 0
                },
            },
    {
        let ghost old_path = self.path@;
        let ghost l0 = self.len_before_body_spec();
        while self.len_before_body() < char_len(self.path)
            invariant
                self.wf(),
                !self.finished_spec(),
                self.back is Body,
                old_path == old(self).path@,
                l0 == old(self).len_before_body_spec(),
                self.path@ == old_path.take(self.path@.len() as int),
                self.path@.len() <= old_path.len(),
                self@ == old(self)@,
                self.front == old(self).front,
                self.has_physical_root == old(self).has_physical_root,
                self.len_before_body_spec() == l0,
                self.path@.take(l0) == old_path.take(l0),
                trim_end(self.path@.skip(l0)) == trim_end(old_path.skip(l0)),
            decreases self.path@.len(),
        {
            let ghost cur = *self;
            let comp = self.pop_back_piece();
            assert(self.path@ =~= old_path.take(self.path@.len() as int));
            if comp.is_some() {
                assert(old(self)@ =~= self@ + seq![comp.unwrap()@]);
                return comp;
            }
            assert(self@ =~= old(self)@);
        }
        proof {
            assert(self.path@.skip(l0) =~= seq![]);
            assert(trim_end(self.path@.skip(l0)) == self.path@.skip(l0));
            if self.front is StartDir {
                assert(self.path@.len() >= head_len(self.path@));
            }
        }
        None
    }

    /// Takes the next component from the back.
    pub fn next_back(&mut self) -> (r: Option<Component<'a>>)
        requires
            old(self).wf(),
        ensures
            final(self).wf(),
            final(self).spec_path() == old(self).spec_path().take(
                final(self).spec_path().len() as int,
            ),
            final(self).spec_path().len() <= old(self).spec_path().len(),
            old(self).front_is_start() ==> final(self).front_is_start(),
            match r {
                None => old(self)@.len() == 0 && final(self)@.len() == 0,
                Some(c) => old(self)@.len() > 0 && c@ == old(self)@.last() && final(self)@ == old(
                    self,
                )@.drop_last(),
            },
            old(self).body_pending() ==> match r {
                Some(c) => if c@ is RootDir || c@ is CurDir {
                    final(self).spec_path().len() == 0 && trim_end(
                        old(self).spec_path().skip(old(self).len_before_body_spec()),
                    ).len() == 0
                } else {
                    &&& final(self).body_pending()
                    &&& final(self).len_before_body_spec() == old(self).len_before_body_spec()
                    &&& final(self).spec_path() == old(self).spec_path().take(
                        old(self).len_before_body_spec(),
                    ) + cut_last(
                        trim_end(old(self).spec_path().skip(old(self).len_before_body_spec())),
                    )
                    &&& trim_end(
                        old(self).spec_path().skip(old(self).len_before_body_spec()),
                    ).len() > 0
                },
                None => trim_end(
                    old(self).spec_path().skip(old(self).len_before_body_spec()),
                ).len() == 0,
            },
    {
        if self.finished() {
            return None;
        }
        let ghost l0 = self.len_before_body_spec();
        match self.back {
            State::Body => {
                match self.pop_body_component() {
                    Some(c) => {
                        proof {
                            let p = self.path@;
                            assert(p =~= p.take(l0) + p.skip(l0));
                            assert(old(self)@ =~= self@ + seq![c@]);
                            if self.front is Body {
                                let bo = old(self)@;
                                crate::path_spec::lemma_body_only(old(self).path@);
                                assert(bo[bo.len() - 1] == c@);
                            } else {
                                let ob = old(self).path@.skip(l0);
                                let nb = self.path@.skip(l0);
                                let hh = head(old(self).path@);
                                assert(head(self.path@) == hh);
                                assert(old(self)@ == hh + body(ob));
                                assert(self@ == hh + body(nb));
                                let bo = body(ob);
                                assert(bo =~= old(self)@.skip(hh.len() as int));
                                crate::path_spec::lemma_body_only(ob);
                                assert(bo[bo.len() - 1] == c@);
                            }
                        }
                        return Some(c);
                    },
                    None => {
                        self.back = State::StartDir;
                        proof {
                            if self.front is StartDir {
                                assert(self.path@.skip(head_len(self.path@)) =~= seq![]);
                            }
                        }
                    },
                }
            },
            _ => {},
        }
        if self.finished() {
            return None;
        }
        let cur = self.include_cur_dir();
        self.back = State::Done;
        if self.has_physical_root || cur {
            let n = char_len(self.path);
            self.path = self.path.substring_char(0, n - 1);
            if self.has_physical_root {
                return Some(Component::RootDir);
            } else {
                return Some(Component::CurDir);
            }
        }
        None
    }
}

impl<'a> View for Components<'a> {
    type V = Seq<SComponent>;

    /// The components that are still to be taken.
    closed spec fn view(&self) -> Seq<SComponent> {
        if self.finished_spec() {
            seq![]
        } else if self.front is StartDir {
            if self.back is Body {
                spec_components(self.path@)
            } else {
                head(self.path@)
            }
        } else {
            body(self.path@)
        }
    }
}

} // verus!
