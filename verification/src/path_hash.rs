//! Hashing paths by their components, so that equal paths hash alike.
use core::hash::{Hash, Hasher};
use vstd::prelude::*;

use crate::components::Component;
use crate::path_spec::{spec_components, SComponent};
use crate::spath::{component_texts, SPath, SPathBuf};

verus! {

/// The components of a path that its hash covers: all but the root.
pub open spec fn hashed_components(cs: Seq<SComponent>) -> Seq<SComponent> {
    if cs.len() > 0 && cs[0] is RootDir {
        cs.drop_first()
    } else {
        cs
    }
}

/// `x` with its bits rotated right by two places.
pub open spec fn rotate_right_2(x: usize) -> usize {
    (x >> 2usize) | (x << (usize::BITS - 2) as usize)
}

/// The summary of the lengths, in bytes, of the hashed texts: each length
/// is added to it (wrapping) and the bits then rotated right by two, so that
/// the same bytes cut into different texts give a different summary.
pub open spec fn chunk_bits(texts: Seq<Seq<char>>) -> usize
    decreases texts.len(),
{
    if texts.len() == 0 {
        0
    } else {
        rotate_right_2(
            vstd::wrapping::usize_specs::wrapping_add(
                chunk_bits(texts.drop_last()),
                vstd::utf8::encode_utf8(texts.last()).len() as usize,
            ),
        )
    }
}

fn rotate_right_2_of(x: usize) -> (r: usize)
    ensures
        r == rotate_right_2(x),
{
    (x >> 2usize) | (x << (usize::BITS - 2) as usize)
}

/// A root can only be the first component.
proof fn lemma_root_only_first(p: Seq<char>, i: int)
    requires
        0 < i < spec_components(p).len(),
    ensures
        !(spec_components(p)[i] is RootDir),
{
    let h = crate::path_spec::head(p);
    let b = crate::path_spec::body(p.skip(crate::path_spec::head_len(p)));
    crate::path_spec::lemma_body_only(p.skip(crate::path_spec::head_len(p)));
    assert(spec_components(p) == h + b);
    if i >= h.len() {
        assert(spec_components(p)[i] == b[i - h.len()]);
    }
}

impl<'a> SPath<'a> {
    /// What the hash of the path is made of: the texts of its components
    /// but the root, in order, and the summary of their lengths.
    pub fn hash_chunks(&self) -> (r: (Vec<&'a str>, usize))
        ensures
            r.0@.map_values(|s: &str| s@) == component_texts(hashed_components(spec_components(self@))),
            r.1 == chunk_bits(component_texts(hashed_components(spec_components(self@)))),
    {
        let mut comps = self.components();
        let ghost all = spec_components(self@);
        let ghost target = component_texts(hashed_components(all));
        let mut chunks: Vec<&'a str> = Vec::new();
        let mut bits: usize = 0;
        let ghost mut done: int = 0;
        proof {
            assert(comps@ == all);
        }
        loop
            invariant
                comps.wf(),
                all == spec_components(self@),
                target == component_texts(hashed_components(all)),
                0 <= done <= all.len(),
                comps@ == all.skip(done),
                chunks@.map_values(|s: &str| s@) == component_texts(
                    hashed_components(all.take(done)),
                ),
                bits == chunk_bits(component_texts(hashed_components(all.take(done)))),
            ensures
                chunks@.map_values(|s: &str| s@) == target,
                bits == chunk_bits(target),
            decreases comps@.len(),
        {
            let ghost before = comps@;
            match comps.next() {
                Some(c) => {
                    let ghost pre = all.take(done);
                    let ghost post = all.take(done + 1);
                    let ghost x = all[done];
                    proof {
                        assert(before[0] == all[done]);
                        assert(post =~= pre.push(x));
                        if done > 0 {
                            lemma_root_only_first(self@, done);
                        }
                    }
                    match c {
                        Component::RootDir => {
                            proof {
                                assert(done == 0);
                                assert(hashed_components(post) =~= Seq::<SComponent>::empty());
                                assert(pre =~= Seq::<SComponent>::empty());
                                assert(component_texts(Seq::<SComponent>::empty()) =~= Seq::<
                                    Seq<char>,
                                >::empty());
                            }
                        },
                        _ => {
                            let t = c.as_str();
                            let ghost texts = component_texts(hashed_components(pre));
                            proof {
                                assert(hashed_components(post) =~= hashed_components(pre).push(x));
                                assert(component_texts(hashed_components(post)) =~= texts.push(t@));
                                assert(texts.push(t@).drop_last() =~= texts);
                            }
                            bits = rotate_right_2_of(bits.wrapping_add(t.len()));
                            chunks.push(t);
                            proof {
                                assert(chunks@.map_values(|s: &str| s@) =~= texts.push(t@));
                            }
                        },
                    }
                    proof {
                        done = done + 1;
                        assert(comps@ =~= all.skip(done));
                    }
                },
                None => {
                    proof {
                        assert(all.take(done) =~= all);
                    }
                    break ;
                },
            }
        }
        (chunks, bits)
    }
}

/// Paths with the same components hash alike: what the hash is made of
/// depends on the components alone.
pub proof fn law_equal_paths_hash_alike(a: Seq<char>, b: Seq<char>)
    requires
        spec_components(a) == spec_components(b),
    ensures
        component_texts(hashed_components(spec_components(a))) == component_texts(
            hashed_components(spec_components(b)),
        ),
        chunk_bits(component_texts(hashed_components(spec_components(a)))) == chunk_bits(
            component_texts(hashed_components(spec_components(b))),
        ),
{
}

/// Feeds `bytes` to the hasher: `Hasher::write`. Nothing is stated of the
/// hasher's state afterwards.
#[verifier::external_body]
fn hasher_write<H: Hasher>(state: &mut H, bytes: &[u8]) {
    state.write(bytes)
}

/// Feeds `value` to the hasher: `Hasher::write_usize`. Nothing is stated of
/// the hasher's state afterwards.
#[verifier::external_body]
fn hasher_write_usize<H: Hasher>(state: &mut H, value: usize) {
    state.write_usize(value)
}

impl<'a> Hash for SPath<'a> {
    fn hash<H: Hasher>(&self, state: &mut H) {
        let (chunks, bits) = self.hash_chunks();
        let mut i: usize = 0;
        while i < chunks.len()
            invariant
                i <= chunks@.len(),
            decreases chunks@.len() - i,
        {
            hasher_write(state, chunks[i].as_bytes());
            i = i + 1;
        }
        hasher_write_usize(state, bits);
    }
}

impl Hash for SPathBuf {
    fn hash<H: Hasher>(&self, state: &mut H) {
        self.as_spath().hash(state)
    }
}

} // verus!
