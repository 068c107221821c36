//! File extensions of paths, and where an asset's file lies in a pack.
use vstd::prelude::*;
use vstd::string::*;

use crate::asset::{spec_extension, spec_folder, AssetType};
use crate::components::Components;
use crate::path_spec::{
    body, ends_with_noise, head, head_len, last_sep_index, lemma_body_back,
    lemma_last_sep_index, piece, spec_components, spec_file_name, trim_end, SComponent,
};
use crate::resource::ResourceId;
use crate::spath::{component_texts, spec_push, spec_push_all, SPath, SPathBuf};
use crate::text::char_len;

verus! {

/// Index of the last `c` in `s`, or `-1` if there is none.
pub open spec fn last_char_index(s: Seq<char>, c: char) -> int
    decreases s.len(),
{
    if s.len() == 0 {
        -1
    } else if s.last() == c {
        s.len() - 1
    } else {
        last_char_index(s.drop_last(), c)
    }
}

proof fn lemma_last_char_index(s: Seq<char>, c: char)
    ensures
        -1 <= last_char_index(s, c) < s.len(),
        last_char_index(s, c) >= 0 ==> s[last_char_index(s, c)] == c,
        forall|i: int| last_char_index(s, c) < i < s.len() ==> s[i] != c,
    decreases s.len(),
{
    if s.len() > 0 && s.last() != c {
        lemma_last_char_index(s.drop_last(), c);
        assert forall|i: int| last_char_index(s, c) < i < s.len() implies s[i] != c by {
            if i < s.len() - 1 {
                assert(s[i] == s.drop_last()[i]);
            }
        }
    }
}

/// The stem of a file name: the name before its last `.`; the whole name
/// when it has no `.` or its only `.` leads it.
pub open spec fn spec_file_stem(name: Seq<char>) -> Seq<char> {
    let i = last_char_index(name, '.');
    if i <= 0 {
        name
    } else {
        name.take(i)
    }
}

/// The text of a path without trailing separators and `.` pieces.
pub open spec fn trimmed(p: Seq<char>) -> Seq<char> {
    p.take(head_len(p)) + trim_end(p.skip(head_len(p)))
}

/// The text of `p` with the extension of its file name set to `ext`: the
/// path is cut right after the stem of its file name, then `.` and `ext`
/// follow unless `ext` is empty. A path without a file name is left as it is.
pub open spec fn spec_set_extension(p: Seq<char>, ext: Seq<char>) -> Seq<char> {
    match spec_file_name(p) {
        None => p,
        Some(name) => {
            let t = trimmed(p);
            let cut = t.take(t.len() - name.len() + spec_file_stem(name).len());
            if ext.len() == 0 {
                cut
            } else {
                cut + seq!['.'] + ext
            }
        },
    }
}

/// A path whose text does not end in noise ends with its file name.
proof fn lemma_ends_with_file_name(t: Seq<char>)
    requires
        !ends_with_noise(t),
        spec_file_name(t) is Some,
    ensures
        t.len() >= spec_file_name(t).unwrap().len(),
        t.skip(t.len() - spec_file_name(t).unwrap().len()) == spec_file_name(t).unwrap(),
{
    let h = head_len(t);
    let b = t.skip(h);
    let cs = spec_components(t);
    assert(cs == head(t) + body(b));
    if b.len() == 0 {
        assert(body(b) =~= Seq::<SComponent>::empty());
        assert(cs =~= head(t));
        assert(false);
    }
    lemma_body_back(b);
    lemma_last_sep_index(b);
    let j = last_sep_index(b);
    let last = b.skip(j + 1);
    assert(piece(last).len() > 0);
    if j < 0 {
        assert(body(b) == piece(b));
        assert(b.skip(0) =~= b);
    } else {
        assert(body(b) == body(b.take(j)) + piece(last));
    }
    assert(body(b).last() == piece(last).last());
    assert(cs.last() == body(b).last());
    let name = spec_file_name(t).unwrap();
    assert(piece(last) =~= seq![SComponent::Normal(last)]);
    assert(name == last);
    assert(t.skip(t.len() - name.len()) =~= last);
}

impl SPathBuf {
    /// Sets the extension of the file name to `ext` (removing it when `ext`
    /// is empty); `false`, and nothing changed, when the path has no file
    /// name.
    pub fn set_extension(&mut self, ext: &str) -> (r: bool)
        ensures
            r == spec_file_name(old(self)@) is Some,
            final(self)@ == spec_set_extension(old(self)@, ext@),
    {
        let name = match self.as_spath().file_name() {
            Some(n) => n,
            None => {
                return false;
            },
        };
        let name_len = char_len(name);
        let comps = Components::of(self.as_str());
        let trimmed_path = comps.as_spath();
        let t = trimmed_path.as_str();
        proof {
            assert(t@ == trimmed(self@));
            assert(spec_file_name(t@) == spec_file_name(self@));
            lemma_ends_with_file_name(t@);
            lemma_last_char_index(name@, '.');
        }
        let mut dot: usize = name_len;
        let mut stem_len: usize = name_len;
        while dot > 0
            invariant_except_break
                stem_len == name_len,
                forall|i: int| dot <= i < name_len ==> name@[i] != '.',
            invariant
                dot <= name_len,
                name_len == name@.len(),
                -1 <= last_char_index(name@, '.') < name@.len(),
                last_char_index(name@, '.') >= 0 ==> name@[last_char_index(name@, '.')] == '.',
                forall|i: int| last_char_index(name@, '.') < i < name@.len() ==> name@[i] != '.',
            ensures
                stem_len == spec_file_stem(name@).len(),
            decreases dot,
        {
            if name.get_char(dot - 1) == '.' {
                if dot - 1 > 0 {
                    stem_len = dot - 1;
                }
                assert(last_char_index(name@, '.') == dot - 1);
                assert(name@.take(dot - 1).len() == dot - 1);
                break ;
            }
            dot = dot - 1;
        }
        assert(stem_len == spec_file_stem(name@).len());
        let t_len = char_len(t);
        let mut text = String::from_str(t.substring_char(0, t_len - name_len + stem_len));
        if char_len(ext) > 0 {
            text.append(".");
            text.append(ext);
            proof {
                reveal_strlit(".");
            }
        }
        *self = SPathBuf::from_string(text);
        assert(final(self)@ =~= spec_set_extension(old(self)@, ext@));
        true
    }
}

/// Where the asset `id` of type `t` lies below a pack's asset root: the
/// namespace, the folder of the type, the path, and the type's extension
/// on the file name.
pub open spec fn spec_asset_path(id: (Seq<char>, Seq<char>), t: AssetType) -> Seq<char> {
    spec_set_extension(
        spec_push_all(
            spec_push(spec_push(seq![], id.0), spec_folder(t)),
            component_texts(spec_components(id.1)),
        ),
        spec_extension(t),
    )
}

impl ResourceId {
    /// Where the asset of type `t` with this identifier lies below a pack's
    /// asset root.
    pub fn asset_path(&self, t: AssetType) -> (r: SPathBuf)
        ensures
            r@ == spec_asset_path(self@, t),
    {
        let mut path = SPathBuf::new();
        path.push(SPath::new(self.get_namespace()));
        path.push(SPath::new(t.folder()));
        path.extend(self.get_path().iter());
        path.set_extension(t.extension());
        path
    }
}

} // verus!
