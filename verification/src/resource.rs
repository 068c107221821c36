//! Namespaced resource identifiers: `namespace:path/to/resource`.
use vstd::prelude::*;
use vstd::string::*;

use crate::path_spec::{spec_components, spec_file_name, spec_parent};
use crate::spath::{SPath, SPathBuf};
use crate::text::{char_len, str_eq};

verus! {

/// The namespace of resources that the game itself ships.
pub const DEFAULT_NAMESPACE: &'static str = "gg2";

/// Why a resource path or identifier was refused.
#[derive(Debug)]
pub enum ResourceError {
    /// The path does not name a namespace and a known asset folder.
    InvalidResourcePath(SPathBuf),
    /// The identifier has no `:` between namespace and path.
    IdNamespace(String),
}

/// A resource identifier: a namespace and a path within it.
#[derive(Debug, Eq, Hash)]
pub struct ResourceId {
    namespace: String,
    path: SPathBuf,
}

impl View for ResourceId {
    type V = (Seq<char>, Seq<char>);

    closed spec fn view(&self) -> (Seq<char>, Seq<char>) {
        (self.namespace@, self.path@)
    }
}

/// Index of the first occurrence of `c` in `s`, or `s.len()` if none.
pub open spec fn char_index(s: Seq<char>, c: char) -> int
    decreases s.len(),
{
    if s.len() == 0 {
        0
    } else if s[0] == c {
        0
    } else {
        1 + char_index(s.drop_first(), c)
    }
}

pub proof fn lemma_char_index(s: Seq<char>, c: char)
    ensures
        0 <= char_index(s, c) <= s.len(),
        forall|i: int| 0 <= i < char_index(s, c) ==> #[trigger] s[i] != c,
        char_index(s, c) < s.len() ==> s[char_index(s, c)] == c,
    decreases s.len(),
{
    if s.len() > 0 && s[0] != c {
        lemma_char_index(s.drop_first(), c);
        assert forall|i: int| 0 <= i < char_index(s, c) implies #[trigger] s[i] != c by {
            if i > 0 {
                assert(s[i] == s.drop_first()[i - 1]);
            }
        }
    }
}

/// Index of the first `c` in `s`, if any.
pub fn find_char(s: &str, c: char) -> (r: Option<usize>)
    ensures
        match r {
            Some(i) => i == char_index(s@, c) && i < s@.len(),
            None => char_index(s@, c) == s@.len(),
        },
{
    proof {
        lemma_char_index(s@, c);
    }
    let n = char_len(s);
    let mut i: usize = 0;
    while i < n
        invariant
            n == s@.len(),
            i <= n,
            forall|k: int| 0 <= k < i ==> s@[k] != c,
            0 <= char_index(s@, c) <= s@.len(),
            forall|k: int| 0 <= k < char_index(s@, c) ==> #[trigger] s@[k] != c,
            char_index(s@, c) < s@.len() ==> s@[char_index(s@, c)] == c,
        decreases n - i,
    {
        if s.get_char(i) == c {
            return Some(i);
        }
        i = i + 1;
    }
    None
}

/// The text of `id` as `namespace:path`.
pub open spec fn spec_id_text(id: (Seq<char>, Seq<char>)) -> Seq<char> {
    id.0 + seq![':'] + id.1
}

/// What `ResourceId::from_str` makes of `s`: split at its first `:`.
pub open spec fn spec_parse_id(s: Seq<char>) -> Option<(Seq<char>, Seq<char>)> {
    let i = char_index(s, ':');
    if i < s.len() {
        Some((s.take(i), s.skip(i + 1)))
    } else {
        None
    }
}

impl ResourceId {
    /// The identifier of `path` in `namespace`.
    pub fn new(namespace: String, path: SPathBuf) -> (r: ResourceId)
        ensures
            r@ == (namespace@, path@),
    {
        ResourceId { namespace, path }
    }

    /// The identifier of `path` in the game's own namespace.
    pub fn gg2(path: SPathBuf) -> (r: ResourceId)
        ensures
            r@ == (DEFAULT_NAMESPACE@, path@),
    {
        ResourceId::new(String::from_str(DEFAULT_NAMESPACE), path)
    }

    /// The namespace.
    pub fn get_namespace(&self) -> (r: &str)
        ensures
            r@ == self@.0,
    {
        self.namespace.as_str()
    }

    /// The path within the namespace.
    pub fn get_path(&self) -> (r: SPath<'_>)
        ensures
            r@ == self@.1,
    {
        self.path.as_spath()
    }

    /// The last component of the path, if it is a name.
    pub fn file_name(&self) -> (r: Option<&str>)
        ensures
            match r {
                Some(n) => spec_file_name(self@.1) == Some(n@),
                None => spec_file_name(self@.1) is None,
            },
    {
        self.path.as_spath().file_name()
    }

    /// Truncates the path to its parent; `false` if it has none.
    pub fn pop(&mut self) -> (r: bool)
        ensures
            final(self)@.0 == old(self)@.0,
            r == crate::path_spec::has_parent(old(self)@.1),
            r ==> final(self)@.1 == spec_parent(old(self)@.1),
            !r ==> final(self)@.1 == old(self)@.1,
    {
        self.path.pop()
    }

    /// The identifier as text: `namespace:path`.
    pub fn to_string(&self) -> (r: String)
        ensures
            r@ == spec_id_text(self@),
    {
        let mut s = self.namespace.clone();
        s.append(":");
        s.append(self.path.as_str());
        proof {
            reveal_strlit(":");
        }
        s
    }

    /// Reads `namespace:path`, split at the first `:`.
    pub fn from_str(s: &str) -> (r: Result<ResourceId, ResourceError>)
        ensures
            match r {
                Ok(id) => spec_parse_id(s@) == Some(id@),
                Err(e) => spec_parse_id(s@) is None && (e matches ResourceError::IdNamespace(t)
                    && t@ == s@),
            },
    {
        match find_char(s, ':') {
            Some(i) => {
                let n = char_len(s);
                let namespace = s.substring_char(0, i);
                let path = s.substring_char(i + 1, n);
                Ok(ResourceId::new(String::from_str(namespace), SPathBuf::from_str(path)))
            },
            None => Err(ResourceError::IdNamespace(String::from_str(s))),
        }
    }

    /// A copy of the identifier.
    pub fn clone(&self) -> (r: ResourceId)
        ensures
            r@ == self@,
    {
        ResourceId { namespace: self.namespace.clone(), path: self.path.clone() }
    }
}

/// Two identifiers are the same resource: same namespace, same components.
pub open spec fn same_resource(a: (Seq<char>, Seq<char>), b: (Seq<char>, Seq<char>)) -> bool {
    a.0 == b.0 && spec_components(a.1) == spec_components(b.1)
}

impl PartialEq for ResourceId {
    fn eq(&self, other: &Self) -> (r: bool) {
        str_eq(self.namespace.as_str(), other.namespace.as_str()) && self.get_path()
            == other.get_path()
    }
}

impl vstd::std_specs::cmp::PartialEqSpecImpl for ResourceId {
    open spec fn obeys_eq_spec() -> bool {
        true
    }

    open spec fn eq_spec(&self, other: &Self) -> bool {
        same_resource(self@, other@)
    }
}

/// Reading back the text of an identifier whose namespace holds no `:`
/// gives the identifier again.
pub proof fn law_id_text_roundtrip(id: (Seq<char>, Seq<char>))
    requires
        char_index(id.0, ':') == id.0.len(),
    ensures
        spec_parse_id(spec_id_text(id)) == Some(id),
{
    let s = spec_id_text(id);
    lemma_char_index(id.0, ':');
    lemma_char_index(s, ':');
    let i = char_index(s, ':');
    assert(s[id.0.len() as int] == ':');
    if i < id.0.len() {
        assert(s[i] == id.0[i]);
    }
    assert(i == id.0.len());
    assert(s.take(i) =~= id.0);
    assert(s.skip(i + 1) =~= id.1);
}

/// The text of a parsed identifier is the text it was read from.
pub proof fn law_id_parse_text(s: Seq<char>)
    requires
        spec_parse_id(s) is Some,
    ensures
        spec_id_text(spec_parse_id(s).unwrap()) == s,
{
    lemma_char_index(s, ':');
    let i = char_index(s, ':');
    assert(s =~= s.take(i) + seq![':'] + s.skip(i + 1));
}

} // verus!
