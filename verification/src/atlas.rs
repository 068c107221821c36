//! Texture atlases: where the frames of each sprite lie on the atlas
//! texture, and the order in which textures are laid out.
use vstd::prelude::*;

use crate::number::{is_usize_text, parses_as_usize};
use crate::order::{
    chars_order, lemma_chars_order_antisymmetric, lemma_chars_order_equal,
    lemma_chars_order_transitive, lemma_components_order_antisymmetric,
    lemma_components_order_equal, lemma_components_order_transitive,
};
use crate::ordering::{compare_resources, resource_order};
use crate::path_spec::{has_parent, spec_components, spec_file_name, spec_parent, SComponent};
use crate::resource::ResourceId;
use crate::texture::{image_value, pack_textures, packed_atlas, PixelRect, RgbaImage};
use image_atlas::image::AtlasError;

verus! {

/// Why an atlas lookup or an asset request failed.
#[derive(Debug)]
pub enum AssetError {
    /// The atlas holds no texture.
    AtlasEmpty,
    /// No sprite of this identifier is in the atlas.
    AtlasLookup(ResourceId),
    /// An asset of the named type is not loaded.
    Unloaded(String, ResourceId),
    /// The textures could not be packed. `texture_atlas` packs with options
    /// under which packing always succeeds, so it never gives this error.
    Atlas(AtlasError),
    /// The textures do not fit on one atlas page.
    AtlasOverflow,
}

/// The key under which the frames of an identifier are kept: its namespace
/// and the components of its path.
pub open spec fn atlas_key(id: (Seq<char>, Seq<char>)) -> (Seq<char>, Seq<SComponent>) {
    (id.0, spec_components(id.1))
}

/// The file name of `id` is a frame number.
pub open spec fn is_frame(id: (Seq<char>, Seq<char>)) -> bool {
    match spec_file_name(id.1) {
        Some(name) => is_usize_text(name),
        None => false,
    }
}

/// The sprite a texture belongs to: a texture whose file name is a number is
/// a frame of the sprite named by its folder; any other texture is a sprite
/// of its own.
pub open spec fn sprite_of(id: (Seq<char>, Seq<char>)) -> (Seq<char>, Seq<char>) {
    if is_frame(id) && has_parent(id.1) {
        (id.0, spec_parent(id.1))
    } else {
        id
    }
}

/// `m` with `frame` appended to the frames under `k`.
pub open spec fn with_frame<T>(
    m: Map<(Seq<char>, Seq<SComponent>), Seq<T>>,
    k: (Seq<char>, Seq<SComponent>),
    frame: T,
) -> Map<(Seq<char>, Seq<SComponent>), Seq<T>> {
    if m.contains_key(k) {
        m.insert(k, m[k].push(frame))
    } else {
        m.insert(k, seq![frame])
    }
}

/// The frames of the first `n` textures, each added to its sprite in turn.
pub open spec fn built_frames<T>(ids: Seq<(Seq<char>, Seq<char>)>, frames: Seq<T>, n: nat) -> Map<
    (Seq<char>, Seq<SComponent>),
    Seq<T>,
>
    decreases n,
{
    if n == 0 {
        Map::empty()
    } else {
        with_frame(
            built_frames(ids, frames, (n - 1) as nat),
            atlas_key(sprite_of(ids[n - 1])),
            frames[n - 1],
        )
    }
}

/// Swapping two identifiers negates their order.
pub proof fn lemma_resource_order_antisymmetric(a: (Seq<char>, Seq<char>), b: (Seq<char>, Seq<char>))
    ensures
        resource_order(a, b) == -resource_order(b, a),
{
    lemma_chars_order_antisymmetric(a.0, b.0);
    lemma_components_order_antisymmetric(spec_components(a.1), spec_components(b.1));
}

/// Identifiers are ordered by namespace, then path, as a total order: two
/// identifiers are in order 0 exactly when they are the same resource,
/// swapping them negates the order, and the order is transitive.
pub proof fn law_resource_order_total(
    a: (Seq<char>, Seq<char>),
    b: (Seq<char>, Seq<char>),
    c: (Seq<char>, Seq<char>),
)
    ensures
        (resource_order(a, b) == 0) == (atlas_key(a) == atlas_key(b)),
        resource_order(a, b) == -resource_order(b, a),
        resource_order(a, b) < 0 && resource_order(b, c) < 0 ==> resource_order(a, c) < 0,
{
    lemma_resource_order_antisymmetric(a, b);
    lemma_chars_order_equal(a.0, b.0);
    lemma_components_order_equal(spec_components(a.1), spec_components(b.1));
    if resource_order(a, b) < 0 && resource_order(b, c) < 0 {
        lemma_chars_order_equal(b.0, c.0);
        lemma_chars_order_equal(a.0, c.0);
        if chars_order(a.0, b.0) < 0 && chars_order(b.0, c.0) < 0 {
            lemma_chars_order_transitive(a.0, b.0, c.0);
        } else if chars_order(a.0, b.0) == 0 && chars_order(b.0, c.0) == 0 {
            lemma_components_order_transitive(
                spec_components(a.1),
                spec_components(b.1),
                spec_components(c.1),
            );
        }
    }
}

/// The texture at position `a` of `ids` is laid out before the one at `b`:
/// it has the smaller identifier, or an equal one and comes first.
pub open spec fn laid_before(ids: Seq<(Seq<char>, Seq<char>)>, a: int, b: int) -> bool {
    resource_order(ids[a], ids[b]) < 0 || (resource_order(ids[a], ids[b]) == 0 && a < b)
}

/// `order` lists every position of `ids` once, each before the next in the
/// order textures are laid out.
pub open spec fn is_layout_order(ids: Seq<(Seq<char>, Seq<char>)>, order: Seq<usize>) -> bool {
    &&& order.len() == ids.len()
    &&& forall|k: int| 0 <= k < order.len() ==> #[trigger] order[k] < ids.len()
    &&& forall|a: int, b: int| 0 <= a < b < order.len() ==> #[trigger] order[a] != #[trigger] order[b]
    &&& forall|k: int|
        0 <= k < order.len() - 1 ==> #[trigger] laid_before(ids, order[k] as int, order[k + 1] as int)
}

/// The positions of `ids` in the order their textures are laid out on an
/// atlas: by identifier, textures of equal identifiers in the order given,
/// so that the frames of an animation keep their order.
pub fn sort_order(ids: &Vec<ResourceId>) -> (order: Vec<usize>)
    ensures
        is_layout_order(ids@.map_values(|id: ResourceId| id@), order@),
{
    let ghost v = ids@.map_values(|id: ResourceId| id@);
    let n = ids.len();
    let mut order: Vec<usize> = Vec::new();
    let mut i: usize = 0;
    while i < n
        invariant
            n == ids@.len(),
            v == ids@.map_values(|id: ResourceId| id@),
            i <= n,
            order@.len() == i,
            forall|k: int| 0 <= k < order@.len() ==> #[trigger] order@[k] < i,
            forall|a: int, b: int|
                0 <= a < b < order@.len() ==> #[trigger] order@[a] != #[trigger] order@[b],
            forall|k: int|
                0 <= k < order@.len() - 1 ==> #[trigger] laid_before(
                    v,
                    order@[k] as int,
                    order@[k + 1] as int,
                ),
        decreases n - i,
    {
        let mut j: usize = order.len();
        while j > 0 && compare_resources(&ids[order[j - 1]], &ids[i]) > 0
            invariant
                n == ids@.len(),
                v == ids@.map_values(|id: ResourceId| id@),
                i < n,
                j <= order@.len(),
                forall|k: int| 0 <= k < order@.len() ==> #[trigger] order@[k] < i,
                j < order@.len() ==> resource_order(v[order@[j as int] as int], v[i as int]) > 0,
            decreases j,
        {
            j = j - 1;
        }
        let ghost before = order@;
        proof {
            if j > 0 {
                assert(resource_order(v[before[j - 1] as int], v[i as int]) <= 0);
                lemma_resource_order_antisymmetric(v[before[j - 1] as int], v[i as int]);
                assert(laid_before(v, before[j - 1] as int, i as int));
            }
            if j < before.len() {
                lemma_resource_order_antisymmetric(v[before[j as int] as int], v[i as int]);
                assert(laid_before(v, i as int, before[j as int] as int));
            }
        }
        order.insert(j, i);
        proof {
            let after = order@;
            assert(after =~= before.insert(j as int, i));
            assert forall|k: int| 0 <= k < after.len() implies #[trigger] after[k] < i + 1 by {
                if k < j {
                    assert(after[k] == before[k]);
                } else if k > j {
                    assert(after[k] == before[k - 1]);
                }
            }
            assert forall|a: int, b: int| 0 <= a < b < after.len() implies #[trigger] after[a]
                != #[trigger] after[b] by {
                if a != j && b != j {
                    let a0 = if a < j {
                        a
                    } else {
                        a - 1
                    };
                    let b0 = if b < j {
                        b
                    } else {
                        b - 1
                    };
                    assert(after[a] == before[a0]);
                    assert(after[b] == before[b0]);
                } else if a == j {
                    assert(after[b] == before[b - 1]);
                } else {
                    assert(after[a] == before[a]);
                }
            }
            assert forall|k: int| 0 <= k < after.len() - 1 implies #[trigger] laid_before(
                v,
                after[k] as int,
                after[k + 1] as int,
            ) by {
                if k + 1 < j {
                    assert(after[k] == before[k]);
                    assert(after[k + 1] == before[k + 1]);
                } else if k + 1 == j {
                    assert(after[k] == before[k]);
                } else if k == j {
                    assert(after[k + 1] == before[k]);
                } else {
                    assert(after[k] == before[k - 1]);
                    assert(after[k + 1] == before[k]);
                    let k0 = k - 1;
                    assert(0 <= k0 < before.len() - 1);
                    assert(laid_before(v, before[k0] as int, before[k0 + 1] as int));
                }
            }
        }
        i = i + 1;
    }
    order
}

/// The frames, among the first `n`, of the textures that belong to the
/// sprite `k`, in order.
pub open spec fn frames_of<T>(
    ids: Seq<(Seq<char>, Seq<char>)>,
    frames: Seq<T>,
    n: nat,
    k: (Seq<char>, Seq<SComponent>),
) -> Seq<T>
    decreases n,
{
    if n == 0 {
        seq![]
    } else if atlas_key(sprite_of(ids[n - 1])) == k {
        frames_of(ids, frames, (n - 1) as nat, k).push(frames[n - 1])
    } else {
        frames_of(ids, frames, (n - 1) as nat, k)
    }
}

/// Building an atlas keeps each sprite's frames in the order of the
/// textures: a sprite is present exactly when one of the textures belongs
/// to it, and its frames are those of its textures, in order.
pub proof fn law_built_frames_keep_order<T>(
    ids: Seq<(Seq<char>, Seq<char>)>,
    frames: Seq<T>,
    n: nat,
    k: (Seq<char>, Seq<SComponent>),
)
    ensures
        built_frames(ids, frames, n).contains_key(k) == (frames_of(ids, frames, n, k).len() > 0),
        built_frames(ids, frames, n).contains_key(k) ==> built_frames(ids, frames, n)[k]
            == frames_of(ids, frames, n, k),
    decreases n,
{
    if n > 0 {
        law_built_frames_keep_order(ids, frames, (n - 1) as nat, k);
    }
}

proof fn lemma_frame_in_frames_of<T>(
    ids: Seq<(Seq<char>, Seq<char>)>,
    frames: Seq<T>,
    n: nat,
    i: nat,
)
    requires
        i < n,
    ensures
        ({
            let k = atlas_key(sprite_of(ids[i as int]));
            &&& frames_of(ids, frames, i, k).len() < frames_of(ids, frames, n, k).len()
            &&& frames_of(ids, frames, n, k)[frames_of(ids, frames, i, k).len() as int]
                == frames[i as int]
        }),
    decreases n,
{
    let k = atlas_key(sprite_of(ids[i as int]));
    if i < n - 1 {
        lemma_frame_in_frames_of(ids, frames, (n - 1) as nat, i);
    }
}

/// Every texture becomes a frame of its sprite: after the first `n`
/// textures are built into frames, the sprite of texture `i` is present,
/// and the frame of texture `i` follows those of the earlier textures of
/// that sprite.
pub proof fn law_each_texture_is_a_frame<T>(
    ids: Seq<(Seq<char>, Seq<char>)>,
    frames: Seq<T>,
    n: nat,
    i: nat,
)
    requires
        i < n,
    ensures
        ({
            let k = atlas_key(sprite_of(ids[i as int]));
            let m = built_frames(ids, frames, n);
            &&& m.contains_key(k)
            &&& m[k][frames_of(ids, frames, i, k).len() as int] == frames[i as int]
        }),
{
    let k = atlas_key(sprite_of(ids[i as int]));
    lemma_frame_in_frames_of(ids, frames, n, i);
    law_built_frames_keep_order(ids, frames, n, k);
}

/// Adding a frame for a texture puts it last among the frames of the
/// texture's sprite, after the frames it had; every other sprite keeps its
/// frames.
pub proof fn law_frame_added_last<T>(
    m: Map<(Seq<char>, Seq<SComponent>), Seq<T>>,
    id: (Seq<char>, Seq<char>),
    frame: T,
    other: (Seq<char>, Seq<SComponent>),
)
    ensures
        ({
            let k = atlas_key(sprite_of(id));
            let after = with_frame(m, k, frame);
            &&& after.contains_key(k)
            &&& after[k] == (if m.contains_key(k) {
                m[k]
            } else {
                seq![]
            }).push(frame)
            &&& other != k ==> after.contains_key(other) == m.contains_key(other)
            &&& other != k && m.contains_key(other) ==> after[other] == m[other]
        }),
{
    let k = atlas_key(sprite_of(id));
    if !m.contains_key(k) {
        assert(seq![frame] =~= Seq::<T>::empty().push(frame));
    }
}

/// The identifiers of `ids` in the order `order` gives.
pub open spec fn in_order(ids: Seq<(Seq<char>, Seq<char>)>, order: Seq<usize>) -> Seq<
    (Seq<char>, Seq<char>),
> {
    Seq::new(order.len(), |k: int| ids[order[k] as int])
}

/// The images of `textures` (as width, height and pixels) in the order
/// `order` gives.
pub open spec fn laid_out_images(textures: Seq<(ResourceId, RgbaImage)>, order: Seq<usize>) -> Seq<
    (u32, u32, Seq<u8>),
> {
    Seq::new(order.len(), |k: int| image_value(textures[order[k] as int].1))
}

/// What `texture_atlas` gives for textures with identifiers `ids`, laid out
/// in `order`, whose packing on pages of `size` pixels square is `packed`:
/// the atlas of their frames and its one page; `AtlasEmpty` when there is no
/// texture; `AtlasOverflow` when the packing needs more than one page.
pub open spec fn atlas_outcome(
    size: u32,
    ids: Seq<(Seq<char>, Seq<char>)>,
    order: Seq<usize>,
    packed: (Seq<PixelRect>, Seq<Seq<u8>>),
    r: Result<(TextureAtlas<PixelRect>, RgbaImage), AssetError>,
) -> bool {
    match r {
        Ok((atlas, page)) => {
            &&& ids.len() > 0 && packed.1.len() == 1
            &&& atlas.wf()
            &&& atlas.atlas_size() == size
            &&& atlas@ == built_frames(in_order(ids, order), packed.0, ids.len())
            &&& page.width == size && page.height == size && page.wf()
            &&& page.pixels@ == packed.1[0]
        },
        Err(e) => {
            ||| e is AtlasEmpty && ids.len() == 0
            ||| e is AtlasOverflow && ids.len() > 0 && packed.1.len() > 1
        },
    }
}

/// Lays `textures` out on one atlas page of `size` pixels square: in the
/// order of their identifiers (see `sort_order`), so that the frames of an
/// animation come in order, packs their images in that order and records
/// the place of each texture as a frame of its sprite. Gives the atlas and
/// its page. The layout order is the only one there is
/// (`law_layout_order_unique`).
pub fn texture_atlas(size: u32, textures: Vec<(ResourceId, RgbaImage)>) -> (r: Result<
    (TextureAtlas<PixelRect>, RgbaImage),
    AssetError,
>)
    requires
        forall|i: int| 0 <= i < textures@.len() ==> (#[trigger] textures@[i]).1.wf(),
        4 * (size as int) * (size as int) <= usize::MAX,
    ensures
        ({
            let ids = textures@.map_values(|t: (ResourceId, RgbaImage)| t.0@);
            exists|order: Seq<usize>|
                #[trigger] is_layout_order(ids, order) && atlas_outcome(
                    size,
                    ids,
                    order,
                    packed_atlas(size, laid_out_images(textures@, order)),
                    r,
                )
        }),
{
    let ghost ids_view = textures@.map_values(|t: (ResourceId, RgbaImage)| t.0@);
    let n = textures.len();
    let mut ids: Vec<ResourceId> = Vec::new();
    let mut i: usize = 0;
    while i < n
        invariant
            n == textures@.len(),
            i <= n,
            ids_view == textures@.map_values(|t: (ResourceId, RgbaImage)| t.0@),
            ids@.len() == i,
            forall|k: int| 0 <= k < i ==> (#[trigger] ids@[k])@ == ids_view[k],
        decreases n - i,
    {
        ids.push(textures[i].0.clone());
        i = i + 1;
    }
    assert(ids@.map_values(|id: ResourceId| id@) =~= ids_view);
    let order = sort_order(&ids);
    let mut sorted_ids: Vec<ResourceId> = Vec::new();
    let mut images: Vec<RgbaImage> = Vec::new();
    let mut k: usize = 0;
    while k < n
        invariant
            n == textures@.len(),
            n == ids_view.len(),
            k <= n,
            ids_view == textures@.map_values(|t: (ResourceId, RgbaImage)| t.0@),
            is_layout_order(ids_view, order@),
            forall|j: int| 0 <= j < textures@.len() ==> (#[trigger] textures@[j]).1.wf(),
            sorted_ids@.len() == k,
            images@.len() == k,
            forall|j: int| 0 <= j < k ==> (#[trigger] sorted_ids@[j])@ == ids_view[order@[j] as int],
            forall|j: int| 0 <= j < k ==> (#[trigger] images@[j]).wf(),
            forall|j: int|
                0 <= j < k ==> image_value(#[trigger] images@[j]) == image_value(
                    textures@[order@[j] as int].1,
                ),
        decreases n - k,
    {
        let p = order[k];
        assert(p < n);
        sorted_ids.push(textures[p].0.clone());
        let image = textures[p].1.copy();
        assert(textures@[p as int].1.wf());
        images.push(image);
        k = k + 1;
    }
    let ghost laid_out = laid_out_images(textures@, order@);
    let ghost packed = packed_atlas(size, laid_out);
    assert(images@.map_values(|t: RgbaImage| image_value(t)) =~= laid_out);
    let (rects, pages) = match pack_textures(size, &images) {
        Ok(packed) => packed,
        Err(e) => {
            return Err(AssetError::Atlas(e));
        },
    };
    assert(rects@ == packed.0);
    assert(pages@.map_values(|p: Vec<u8>| p@) == packed.1);
    if pages.len() == 0 {
        assert(atlas_outcome(size, ids_view, order@, packed, Err(AssetError::AtlasEmpty)));
        return Err(AssetError::AtlasEmpty);
    }
    if pages.len() > 1 {
        assert(atlas_outcome(size, ids_view, order@, packed, Err(AssetError::AtlasOverflow)));
        return Err(AssetError::AtlasOverflow);
    }
    let mut pages = pages;
    let ghost first = pages@[0]@;
    assert(first == packed.1[0]);
    let page = RgbaImage { width: size, height: size, pixels: pages.remove(0) };
    let atlas = TextureAtlas::from_frames(size, &sorted_ids, &rects);
    proof {
        let sorted = in_order(ids_view, order@);
        assert(sorted_ids@.map_values(|id: ResourceId| id@) =~= sorted);
        assert(atlas_outcome(size, ids_view, order@, packed, Ok((atlas, page))));
    }
    Ok((atlas, page))
}

proof fn lemma_order_le_transitive(
    a: (Seq<char>, Seq<char>),
    b: (Seq<char>, Seq<char>),
    c: (Seq<char>, Seq<char>),
)
    requires
        resource_order(a, b) <= 0,
        resource_order(b, c) <= 0,
    ensures
        resource_order(a, c) <= 0,
{
    law_resource_order_total(a, b, c);
    lemma_chars_order_equal(a.0, b.0);
    lemma_chars_order_equal(b.0, c.0);
    lemma_components_order_equal(spec_components(a.1), spec_components(b.1));
    lemma_components_order_equal(spec_components(b.1), spec_components(c.1));
}

/// Laying textures out sorts them: in layout order, each identifier comes
/// no later than any identifier after it. So the frames of each sprite on
/// an atlas built from the layout (`texture_atlas`, with
/// `law_built_frames_keep_order`) come in the order of their identifiers.
pub proof fn law_layout_is_sorted(ids: Seq<(Seq<char>, Seq<char>)>, order: Seq<usize>)
    requires
        is_layout_order(ids, order),
    ensures
        forall|a: int, b: int|
            0 <= a < b < order.len() ==> resource_order(
                #[trigger] in_order(ids, order)[a],
                #[trigger] in_order(ids, order)[b],
            ) <= 0,
{
    let s = in_order(ids, order);
    assert forall|a: int, b: int| 0 <= a < b < order.len() implies resource_order(
        #[trigger] s[a],
        #[trigger] s[b],
    ) <= 0 by {
        lemma_sorted_span(ids, order, a, b);
    }
}

proof fn lemma_sorted_span(ids: Seq<(Seq<char>, Seq<char>)>, order: Seq<usize>, a: int, b: int)
    requires
        is_layout_order(ids, order),
        0 <= a < b < order.len(),
    ensures
        resource_order(in_order(ids, order)[a], in_order(ids, order)[b]) <= 0,
    decreases b - a,
{
    let s = in_order(ids, order);
    assert(laid_before(ids, order[b - 1] as int, order[(b - 1) + 1] as int));
    assert(s[b - 1] == ids[order[b - 1] as int]);
    assert(s[b] == ids[order[b] as int]);
    if a < b - 1 {
        lemma_sorted_span(ids, order, a, b - 1);
        lemma_order_le_transitive(s[a], s[b - 1], s[b]);
    }
}

/// Laying out orders positions transitively.
proof fn lemma_laid_before_transitive(ids: Seq<(Seq<char>, Seq<char>)>, p: int, q: int, r: int)
    requires
        laid_before(ids, p, q),
        laid_before(ids, q, r),
    ensures
        laid_before(ids, p, r),
{
    let a = ids[p];
    let b = ids[q];
    let c = ids[r];
    lemma_order_le_transitive(a, b, c);
    if resource_order(a, c) == 0 {
        law_resource_order_total(a, c, b);
        assert(resource_order(a, b) == resource_order(c, b));
        lemma_resource_order_antisymmetric(c, b);
    }
}

/// In a layout order, each position is laid out before every later one.
proof fn lemma_laid_before_span(ids: Seq<(Seq<char>, Seq<char>)>, order: Seq<usize>, a: int, b: int)
    requires
        is_layout_order(ids, order),
        0 <= a < b < order.len(),
    ensures
        laid_before(ids, order[a] as int, order[b] as int),
    decreases b - a,
{
    assert(laid_before(ids, order[b - 1] as int, order[(b - 1) + 1] as int));
    if a < b - 1 {
        lemma_laid_before_span(ids, order, a, b - 1);
        lemma_laid_before_transitive(ids, order[a] as int, order[b - 1] as int, order[b] as int);
    }
}

/// Position `p` is `q` or laid out before it.
pub open spec fn layout_le(ids: Seq<(Seq<char>, Seq<char>)>) -> spec_fn(usize, usize) -> bool {
    |p: usize, q: usize| p == q || laid_before(ids, p as int, q as int)
}

proof fn lemma_layout_le_total(ids: Seq<(Seq<char>, Seq<char>)>)
    ensures
        vstd::relations::total_ordering(layout_le(ids)),
{
    let le = layout_le(ids);
    assert forall|x: usize, y: usize| #[trigger] le(x, y) && #[trigger] le(y, x) implies x == y by {
        lemma_resource_order_antisymmetric(ids[x as int], ids[y as int]);
    }
    assert forall|x: usize, y: usize, z: usize| #[trigger] le(x, y) && #[trigger] le(y, z) implies le(
        x,
        z,
    ) by {
        if x != y && y != z {
            lemma_laid_before_transitive(ids, x as int, y as int, z as int);
        }
    }
    assert forall|x: usize, y: usize| #[trigger] le(x, y) || #[trigger] le(y, x) by {
        lemma_resource_order_antisymmetric(ids[x as int], ids[y as int]);
    }
}

/// A layout order holds each position of `ids` exactly once.
proof fn lemma_layout_positions(ids: Seq<(Seq<char>, Seq<char>)>, order: Seq<usize>)
    requires
        is_layout_order(ids, order),
    ensures
        forall|x: usize|
            #[trigger] order.to_multiset().count(x) == (if (x as int) < ids.len() {
                1nat
            } else {
                0nat
            }),
{
    broadcast use vstd::seq_lib::group_to_multiset_ensures;

    let n = ids.len() as int;
    let oi = order.map_values(|x: usize| x as int);
    assert(order.no_duplicates());
    assert(oi.no_duplicates());
    order.lemma_multiset_has_no_duplicates();
    oi.unique_seq_to_set();
    vstd::set_lib::lemma_int_range(0, n);
    assert(oi.to_set().subset_of(vstd::set_lib::set_int_range(0, n)));
    vstd::seq_lib::seq_to_set_is_finite(oi);
    vstd::set_lib::lemma_subset_equality(oi.to_set(), vstd::set_lib::set_int_range(0, n));
    assert forall|x: usize| #[trigger] order.to_multiset().count(x) == (if (x as int) < ids.len() {
        1nat
    } else {
        0nat
    }) by {
        if (x as int) < n {
            assert(vstd::set_lib::set_int_range(0, n).contains(x as int));
            assert(oi.to_set().contains(x as int));
            let k = choose|k: int| 0 <= k < oi.len() && oi[k] == x as int;
            assert(order[k] == x);
            assert(order.contains(x));
        } else {
            if order.contains(x) {
                let k = choose|k: int| 0 <= k < order.len() && order[k] == x;
                assert(order[k] < ids.len());
            }
        }
    }
}

/// The order in which textures are laid out is fixed by their identifiers:
/// any two layout orders of the same identifiers are the same, so
/// `texture_atlas` has one result for given textures.
pub proof fn law_layout_order_unique(
    ids: Seq<(Seq<char>, Seq<char>)>,
    first: Seq<usize>,
    second: Seq<usize>,
)
    requires
        is_layout_order(ids, first),
        is_layout_order(ids, second),
    ensures
        first == second,
{
    lemma_layout_le_total(ids);
    assert forall|i: int, j: int| 0 <= i < j < first.len() implies #[trigger] layout_le(ids)(
        first[i],
        first[j],
    ) by {
        lemma_laid_before_span(ids, first, i, j);
    }
    assert forall|i: int, j: int| 0 <= i < j < second.len() implies #[trigger] layout_le(ids)(
        second[i],
        second[j],
    ) by {
        lemma_laid_before_span(ids, second, i, j);
    }
    lemma_layout_positions(ids, first);
    lemma_layout_positions(ids, second);
    assert(first.to_multiset() =~= second.to_multiset());
    vstd::seq_lib::lemma_sorted_unique(first, second, layout_le(ids));
}

/// The frames of each sprite on an atlas texture of `size` pixels square.
#[derive(Debug)]
pub struct TextureAtlas<T> {
    uv_lookup: Vec<(ResourceId, Vec<T>)>,
    pub size: u32,
}

/// The map that a list of entries stands for.
pub open spec fn entry_map<T>(s: Seq<(ResourceId, Vec<T>)>) -> Map<
    (Seq<char>, Seq<SComponent>),
    Seq<T>,
>
    decreases s.len(),
{
    if s.len() == 0 {
        Map::empty()
    } else {
        entry_map(s.drop_last()).insert(atlas_key(s.last().0@), s.last().1@)
    }
}

pub open spec fn distinct_keys<T>(s: Seq<(ResourceId, Vec<T>)>) -> bool {
    forall|i: int, j: int|
        0 <= i < s.len() && 0 <= j < s.len() && i != j ==> atlas_key(#[trigger] s[i].0@)
            != atlas_key(#[trigger] s[j].0@)
}

proof fn lemma_entry_map<T>(s: Seq<(ResourceId, Vec<T>)>)
    requires
        distinct_keys(s),
    ensures
        forall|i: int|
            0 <= i < s.len() ==> #[trigger] entry_map(s).contains_key(atlas_key(s[i].0@))
                && entry_map(s)[atlas_key(s[i].0@)] == s[i].1@,
        forall|k: (Seq<char>, Seq<SComponent>)|
            #[trigger] entry_map(s).contains_key(k) ==> exists|i: int|
                0 <= i < s.len() && atlas_key(#[trigger] s[i].0@) == k,
    decreases s.len(),
{
    if s.len() > 0 {
        let t = s.drop_last();
        assert(distinct_keys(t)) by {
            assert forall|i: int, j: int|
                0 <= i < t.len() && 0 <= j < t.len() && i != j implies atlas_key(
                #[trigger] t[i].0@,
            ) != atlas_key(#[trigger] t[j].0@) by {
                assert(t[i] == s[i]);
                assert(t[j] == s[j]);
            }
        }
        lemma_entry_map(t);
        assert forall|i: int| 0 <= i < s.len() implies #[trigger] entry_map(s).contains_key(
            atlas_key(s[i].0@),
        ) && entry_map(s)[atlas_key(s[i].0@)] == s[i].1@ by {
            if i < s.len() - 1 {
                assert(t[i] == s[i]);
                assert(entry_map(t).contains_key(atlas_key(t[i].0@)));
                assert(atlas_key(s[i].0@) != atlas_key(s[s.len() - 1].0@));
            }
        }
        assert forall|k: (Seq<char>, Seq<SComponent>)| #[trigger]
            entry_map(s).contains_key(k) implies exists|i: int|
            0 <= i < s.len() && atlas_key(#[trigger] s[i].0@) == k by {
            if k != atlas_key(s.last().0@) {
                assert(entry_map(t).contains_key(k));
                let i = choose|i: int| 0 <= i < t.len() && atlas_key(#[trigger] t[i].0@) == k;
                assert(t[i] == s[i]);
            } else {
                assert(atlas_key(s[s.len() - 1].0@) == k);
            }
        }
    }
}

proof fn lemma_entry_map_update<T>(s: Seq<(ResourceId, Vec<T>)>, i: int, e: (ResourceId, Vec<T>))
    requires
        distinct_keys(s),
        0 <= i < s.len(),
        atlas_key(e.0@) == atlas_key(s[i].0@),
    ensures
        entry_map(s.update(i, e)) == entry_map(s).insert(atlas_key(e.0@), e.1@),
    decreases s.len(),
{
    let u = s.update(i, e);
    let t = s.drop_last();
    if i == s.len() - 1 {
        assert(u.drop_last() =~= t);
        lemma_entry_map(s);
        assert(entry_map(u) =~= entry_map(s).insert(atlas_key(e.0@), e.1@));
    } else {
        assert(distinct_keys(t)) by {
            assert forall|a: int, b: int|
                0 <= a < t.len() && 0 <= b < t.len() && a != b implies atlas_key(
                #[trigger] t[a].0@,
            ) != atlas_key(#[trigger] t[b].0@) by {
                assert(t[a] == s[a]);
                assert(t[b] == s[b]);
            }
        }
        lemma_entry_map_update(t, i, e);
        assert(u.drop_last() =~= t.update(i, e));
        assert(atlas_key(s[i].0@) != atlas_key(s[s.len() - 1].0@));
        assert(entry_map(u) =~= entry_map(s).insert(atlas_key(e.0@), e.1@));
    }
}

impl<T> View for TextureAtlas<T> {
    type V = Map<(Seq<char>, Seq<SComponent>), Seq<T>>;

    closed spec fn view(&self) -> Map<(Seq<char>, Seq<SComponent>), Seq<T>> {
        entry_map(self.uv_lookup@)
    }
}

impl<T> TextureAtlas<T> {
    /// Every sprite is kept once and has at least one frame.
    pub closed spec fn wf(&self) -> bool {
        &&& distinct_keys(self.uv_lookup@)
        &&& forall|i: int|
            0 <= i < self.uv_lookup@.len() ==> #[trigger] self.uv_lookup@[i].1@.len() > 0
    }

    /// The side of the atlas texture, in pixels.
    pub closed spec fn atlas_size(&self) -> u32 {
        self.size
    }

    /// Every sprite in the atlas has at least one frame.
    pub proof fn lemma_frames_nonempty(&self)
        requires
            self.wf(),
        ensures
            forall|k: (Seq<char>, Seq<SComponent>)| #[trigger]
                self@.contains_key(k) ==> self@[k].len() > 0,
    {
        lemma_entry_map(self.uv_lookup@);
        assert forall|k: (Seq<char>, Seq<SComponent>)| #[trigger]
            self@.contains_key(k) implies self@[k].len() > 0 by {
            let i = choose|i: int|
                0 <= i < self.uv_lookup@.len() && atlas_key(#[trigger] self.uv_lookup@[i].0@)
                    == k;
            assert(self.uv_lookup@[i].1@.len() > 0);
        }
    }

    /// The index of the entry kept under the key of `id`, if any.
    fn find(&self, id: &ResourceId) -> (r: Option<usize>)
        requires
            self.wf(),
        ensures
            match r {
                Some(i) => i < self.uv_lookup@.len() && atlas_key(self.uv_lookup@[i as int].0@)
                    == atlas_key(id@),
                None => forall|i: int|
                    0 <= i < self.uv_lookup@.len() ==> atlas_key(#[trigger] self.uv_lookup@[i].0@)
                        != atlas_key(id@),
            },
    {
        let mut i: usize = 0;
        while i < self.uv_lookup.len()
            invariant
                i <= self.uv_lookup@.len(),
                forall|k: int|
                    0 <= k < i ==> atlas_key(#[trigger] self.uv_lookup@[k].0@) != atlas_key(id@),
            decreases self.uv_lookup@.len() - i,
        {
            if self.uv_lookup[i].0 == *id {
                return Some(i);
            }
            i = i + 1;
        }
        None
    }

    /// Adds `frame` to the sprite that the texture `id` belongs to: the
    /// sprite named by the texture's folder when its file name is a number
    /// (a frame of an animation), else the sprite `id` itself.
    pub fn insert_frame(&mut self, id: ResourceId, frame: T)
        requires
            old(self).wf(),
        ensures
            final(self).wf(),
            final(self).atlas_size() == old(self).atlas_size(),
            final(self)@ == with_frame(old(self)@, atlas_key(sprite_of(id@)), frame),
    {
        let ghost texture = id@;
        let mut id = id;
        let is_animation = match id.file_name() {
            Some(name) => parses_as_usize(name),
            None => false,
        };
        if is_animation {
            id.pop();
        }
        assert(id@ == sprite_of(texture));
        proof {
            lemma_entry_map(self.uv_lookup@);
        }
        match self.find(&id) {
            Some(i) => {
                let (key, mut frames) = self.uv_lookup.remove(i);
                frames.push(frame);
                let ghost old_entries = old(self).uv_lookup@;
                self.uv_lookup.insert(i, (key, frames));
                proof {
                    assert(self.uv_lookup@ =~= old_entries.update(i as int, (key, frames)));
                    lemma_entry_map_update(old_entries, i as int, (key, frames));
                    assert(old(self)@.contains_key(atlas_key(id@)));
                    assert(old(self)@[atlas_key(id@)] == old_entries[i as int].1@);
                    assert(frames@ == old_entries[i as int].1@.push(frame));
                    assert(self@ == old(self)@.insert(atlas_key(id@), frames@));
                    assert forall|a: int| 0 <= a < self.uv_lookup@.len() implies #[trigger]
                        self.uv_lookup@[a].1@.len() > 0 by {
                        if a != i {
                            assert(self.uv_lookup@[a] == old_entries[a]);
                        }
                    }
                    assert(distinct_keys(self.uv_lookup@)) by {
                        assert forall|a: int, b: int|
                            0 <= a < self.uv_lookup@.len() && 0 <= b < self.uv_lookup@.len() && a
                                != b implies atlas_key(#[trigger] self.uv_lookup@[a].0@)
                            != atlas_key(#[trigger] self.uv_lookup@[b].0@) by {
                            assert(atlas_key(old_entries[a].0@) != atlas_key(old_entries[b].0@));
                        }
                    }
                }
            },
            None => {
                let ghost old_entries = self.uv_lookup@;
                let mut frames = Vec::new();
                frames.push(frame);
                self.uv_lookup.push((id, frames));
                proof {
                    assert(self.uv_lookup@.drop_last() =~= old_entries);
                    assert(self.uv_lookup@.last().1@ =~= seq![frame]);
                    assert forall|a: int| 0 <= a < self.uv_lookup@.len() implies #[trigger]
                        self.uv_lookup@[a].1@.len() > 0 by {
                        if a < old_entries.len() {
                            assert(self.uv_lookup@[a] == old_entries[a]);
                        }
                    }
                    assert(!old(self)@.contains_key(atlas_key(id@)));
                    assert(self@ == old(self)@.insert(atlas_key(id@), seq![frame]));
                }
            },
        }
    }
    /// The atlas of `size` pixels square whose sprites hold the frames
    /// `frames`, the frame at each position belonging to the texture at the
    /// same position of `ids` (as far as both reach), taken in order.
    pub fn from_frames(size: u32, ids: &Vec<ResourceId>, frames: &Vec<T>) -> (r: TextureAtlas<T>)
        where
            T: Copy,
        ensures
            r.wf(),
            r.atlas_size() == size,
            r@ == built_frames(
                ids@.map_values(|id: ResourceId| id@),
                frames@,
                if ids@.len() < frames@.len() {
                    ids@.len()
                } else {
                    frames@.len()
                },
            ),
    {
        let n = if ids.len() < frames.len() {
            ids.len()
        } else {
            frames.len()
        };
        let ghost id_views = ids@.map_values(|id: ResourceId| id@);
        let mut atlas = TextureAtlas { uv_lookup: Vec::new(), size };
        assert(atlas@ =~= Map::empty());
        let mut i: usize = 0;
        while i < n
            invariant
                i <= n,
                n <= ids@.len(),
                n <= frames@.len(),
                id_views == ids@.map_values(|id: ResourceId| id@),
                atlas.wf(),
                atlas.atlas_size() == size,
                atlas@ == built_frames(id_views, frames@, i as nat),
            decreases n - i,
        {
            let id = ids[i].clone();
            assert(id@ == id_views[i as int]);
            atlas.insert_frame(id, frames[i]);
            i = i + 1;
        }
        atlas
    }

    /// The frames of the sprite `id`.
    pub fn lookup_sprite_many(&self, id: &ResourceId) -> (r: Result<&[T], AssetError>)
        requires
            self.wf(),
        ensures
            match r {
                Ok(frames) => self@.contains_key(atlas_key(id@)) && frames@ == self@[atlas_key(
                    id@,
                )],
                Err(e) => !self@.contains_key(atlas_key(id@)) && (e matches AssetError::AtlasLookup(
                    x,
                ) && x@ == id@),
            },
    {
        proof {
            lemma_entry_map(self.uv_lookup@);
        }
        match self.find(id) {
            Some(i) => {
                assert(entry_map(self.uv_lookup@).contains_key(
                    atlas_key(self.uv_lookup@[i as int].0@),
                ));
                Ok(self.uv_lookup[i].1.as_slice())
            },
            None => Err(AssetError::AtlasLookup(id.clone())),
        }
    }

    /// The first frame of the sprite `id`.
    pub fn lookup_sprite(&self, id: &ResourceId) -> (r: Result<T, AssetError>)
        where
            T: Copy,
        requires
            self.wf(),
        ensures
            match r {
                Ok(frame) => self@.contains_key(atlas_key(id@)) && frame == self@[atlas_key(
                    id@,
                )][0],
                Err(e) => !self@.contains_key(atlas_key(id@)) && (e matches AssetError::AtlasLookup(
                    x,
                ) && x@ == id@),
            },
    {
        proof {
            self.lemma_frames_nonempty();
        }
        let frames = self.lookup_sprite_many(id)?;
        Ok(frames[0])
    }
}

impl<T> Default for TextureAtlas<T> {
    /// An atlas of size 0 holding no sprite.
    fn default() -> (r: TextureAtlas<T>)
        ensures
            r.wf(),
            r@ == Map::<(Seq<char>, Seq<SComponent>), Seq<T>>::empty(),
            r.atlas_size() == 0,
    {
        let r = TextureAtlas { uv_lookup: Vec::new(), size: 0 };
        assert(r@ =~= Map::<(Seq<char>, Seq<SComponent>), Seq<T>>::empty());
        r
    }
}

} // verus!
