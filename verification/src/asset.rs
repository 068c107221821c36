//! Asset types, how an asset file's path names a resource, and which
//! textures an atlas selects.
use vstd::prelude::*;
use vstd::string::*;

use crate::path_spec::{spec_components, spec_file_name, spec_parent};
use crate::resource::{
    char_index, find_char, same_resource, ResourceError, ResourceId,
};
use crate::spath::{component_texts, spec_push, spec_push_all, SPath, SPathBuf};
use crate::text::str_eq;

verus! {

/// The kinds of assets a pack holds, one folder each.
#[derive(Clone, Copy, Debug, Hash, PartialEq, Eq, Structural)]
pub enum AssetType {
    Texture,
    GameMap,
    Sprite,
    Atlas,
}

/// The folder that holds assets of type `t`.
pub open spec fn spec_folder(t: AssetType) -> Seq<char> {
    match t {
        AssetType::Texture => "textures"@,
        AssetType::GameMap => "maps"@,
        AssetType::Sprite => "sprites"@,
        AssetType::Atlas => "atlases"@,
    }
}

/// The file extension of assets of type `t`.
pub open spec fn spec_extension(t: AssetType) -> Seq<char> {
    match t {
        AssetType::Texture | AssetType::GameMap => "png"@,
        AssetType::Sprite | AssetType::Atlas => "toml"@,
    }
}

/// The asset type whose folder is `s`.
pub open spec fn spec_from_folder(s: Seq<char>) -> Option<AssetType> {
    if s == "textures"@ {
        Some(AssetType::Texture)
    } else if s == "sprites"@ {
        Some(AssetType::Sprite)
    } else if s == "maps"@ {
        Some(AssetType::GameMap)
    } else if s == "atlases"@ {
        Some(AssetType::Atlas)
    } else {
        None
    }
}

/// The path with the extension cut off its file name: the name is cut at
/// its first `.`, and the path keeps everything before it.
pub open spec fn spec_strip_extension(p: Seq<char>) -> Seq<char> {
    match spec_file_name(p) {
        Some(f) => if char_index(f, '.') < f.len() {
            spec_push(spec_parent(p), f.take(char_index(f, '.')))
        } else {
            p
        },
        None => p,
    }
}

/// What a path relative to a pack's asset root names: its first component
/// is the namespace, its second the asset folder, the rest the resource
/// path without extension.
pub open spec fn spec_get_id(p: Seq<char>) -> Option<(AssetType, (Seq<char>, Seq<char>))> {
    let parts = component_texts(spec_components(p));
    if parts.len() < 2 {
        None
    } else {
        match spec_from_folder(parts[1]) {
            Some(t) => Some(
                (t, (parts[0], spec_strip_extension(spec_push_all(seq![], parts.skip(2))))),
            ),
            None => None,
        }
    }
}

impl AssetType {
    /// The folder that holds assets of this type.
    pub fn folder(&self) -> (r: &'static str)
        ensures
            r@ == spec_folder(*self),
    {
        match self {
            AssetType::Texture => "textures",
            AssetType::GameMap => "maps",
            AssetType::Sprite => "sprites",
            AssetType::Atlas => "atlases",
        }
    }

    /// The file extension of assets of this type.
    pub fn extension(&self) -> (r: &'static str)
        ensures
            r@ == spec_extension(*self),
    {
        match self {
            AssetType::Texture | AssetType::GameMap => "png",
            AssetType::Sprite | AssetType::Atlas => "toml",
        }
    }

    /// The asset type whose folder is `folder`.
    pub fn from_folder(folder: &str) -> (r: Option<AssetType>)
        ensures
            r == spec_from_folder(folder@),
    {
        if str_eq(folder, "textures") {
            Some(AssetType::Texture)
        } else if str_eq(folder, "sprites") {
            Some(AssetType::Sprite)
        } else if str_eq(folder, "maps") {
            Some(AssetType::GameMap)
        } else if str_eq(folder, "atlases") {
            Some(AssetType::Atlas)
        } else {
            None
        }
    }

    /// The name of the type, as it is printed.
    pub fn to_string(&self) -> (r: String)
        ensures
            r@ == (match self {
                AssetType::Texture => "Texture"@,
                AssetType::GameMap => "Map"@,
                AssetType::Sprite => "Sprite"@,
                AssetType::Atlas => "Atlas"@,
            }),
    {
        match self {
            AssetType::Texture => String::from_str("Texture"),
            AssetType::GameMap => String::from_str("Map"),
            AssetType::Sprite => String::from_str("Sprite"),
            AssetType::Atlas => String::from_str("Atlas"),
        }
    }

    /// The type and identifier of the asset at `path`, relative to a pack's
    /// asset root: `namespace/folder/path/name.ext` names `namespace:path/name`.
    pub fn get_id(path: SPath) -> (r: Result<(AssetType, ResourceId), ResourceError>)
        ensures
            match r {
                Ok((t, id)) => spec_get_id(path@) == Some((t, id@)),
                Err(e) => spec_get_id(path@) is None && (e matches ResourceError::InvalidResourcePath(
                    b,
                ) && b@ == path@),
            },
    {
        let mut parts = path.iter();
        let ghost texts = component_texts(spec_components(path@));
        let namespace = match parts.next() {
            Some(s) => String::from_str(s),
            None => {
                return Err(ResourceError::InvalidResourcePath(path.to_spath_buf()));
            },
        };
        assert(texts[0] == namespace@);
        let asset_type = match parts.next() {
            Some(s) => {
                assert(texts[1] == s@);
                match AssetType::from_folder(s) {
                    Some(t) => t,
                    None => {
                        return Err(ResourceError::InvalidResourcePath(path.to_spath_buf()));
                    },
                }
            },
            None => {
                return Err(ResourceError::InvalidResourcePath(path.to_spath_buf()));
            },
        };
        assert(component_texts(parts@) =~= texts.skip(2));
        let mut buf = SPathBuf::new();
        buf.extend(parts);
        let ghost joined = buf@;
        let truncated = match buf.as_spath().file_name() {
            Some(f) => match find_char(f, '.') {
                Some(i) => {
                    proof {
                        crate::resource::lemma_char_index(f@, '.');
                    }
                    let t = f.substring_char(0, i);
                    Some(String::from_str(t))
                },
                None => None,
            },
            None => None,
        };
        match truncated {
            Some(t) => {
                buf.pop();
                buf.push(SPath::new(t.as_str()));
            },
            None => {},
        }
        Ok((asset_type, ResourceId::new(namespace, buf)))
    }
}

/// `file` lies within the folder `path`: the components of `path` begin
/// those of `file`, and `file` has more of them.
pub open spec fn spec_within_path(path: Seq<char>, file: Seq<char>) -> bool {
    &&& spec_components(path).is_prefix_of(spec_components(file))
    &&& spec_components(path) != spec_components(file)
}

/// Which textures an atlas takes in.
#[allow(inconsistent_fields)]
#[derive(Debug)]
pub enum AtlasSelector {
    /// All textures within a folder.
    Path { path: SPathBuf },
    /// All textures within a folder of one namespace.
    NamespacePath { path: ResourceId },
    /// One single texture.
    Single { asset: ResourceId },
}

/// Whether `selector` takes in the texture `value`.
pub open spec fn spec_scan_check(selector: AtlasSelector, value: (Seq<char>, Seq<char>)) -> bool {
    match selector {
        AtlasSelector::Path { path } => spec_within_path(path@, value.1),
        AtlasSelector::NamespacePath { path } => path@.0 == value.0 && spec_within_path(
            path@.1,
            value.1,
        ),
        AtlasSelector::Single { asset } => same_resource(value, asset@),
    }
}

impl AtlasSelector {
    /// Whether this selector takes in the texture `value`.
    pub fn scan_check(&self, value: &ResourceId) -> (r: bool)
        ensures
            r == spec_scan_check(*self, value@),
    {
        match self {
            AtlasSelector::Path { path } => Self::within_path(path.as_spath(), value.get_path()),
            AtlasSelector::NamespacePath { path } => {
                str_eq(path.get_namespace(), value.get_namespace()) && Self::within_path(
                    path.get_path(),
                    value.get_path(),
                )
            },
            AtlasSelector::Single { asset } => *value == *asset,
        }
    }

    /// Whether `file` lies within the folder `path`.
    pub fn within_path(path: SPath, file: SPath) -> (r: bool)
        ensures
            r == spec_within_path(path@, file@),
    {
        file.starts_with(path) && !(file == path)
    }
}

/// The size of an atlas, in pixels along each side.
#[derive(Debug)]
pub struct AtlasMetadata {
    pub size: u32,
}

/// An atlas: its size and the selectors of the textures it takes in.
#[derive(Debug)]
pub struct AtlasDefinition {
    pub metadata: AtlasMetadata,
    pub selectors: Vec<AtlasSelector>,
}

impl AtlasDefinition {
    /// Some selector of the atlas takes in the texture `id`.
    pub open spec fn spec_selects(&self, id: (Seq<char>, Seq<char>)) -> bool {
        exists|i: int| 0 <= i < self.selectors@.len() && #[trigger] spec_scan_check(self.selectors@[i], id)
    }

    /// Whether any selector of the atlas takes in the texture `id`.
    pub fn selects(&self, id: &ResourceId) -> (r: bool)
        ensures
            r == self.spec_selects(id@),
    {
        let n = self.selectors.len();
        let mut i: usize = 0;
        while i < n
            invariant
                n == self.selectors@.len(),
                i <= n,
                forall|k: int| 0 <= k < i ==> !#[trigger] spec_scan_check(self.selectors@[k], id@),
            decreases n - i,
        {
            if self.selectors[i].scan_check(id) {
                return true;
            }
            i = i + 1;
        }
        false
    }
    /// The positions of the textures of `ids` that the atlas takes in, in
    /// increasing order.
    pub fn select(&self, ids: &Vec<ResourceId>) -> (r: Vec<usize>)
        ensures
            forall|a: int, b: int| 0 <= a < b < r@.len() ==> r@[a] < r@[b],
            forall|k: int|
                0 <= k < r@.len() ==> #[trigger] r@[k] < ids@.len() && self.spec_selects(
                    ids@[r@[k] as int]@,
                ),
            forall|p: int|
                0 <= p < ids@.len() && self.spec_selects(#[trigger] ids@[p]@) ==> r@.contains(
                    p as usize,
                ),
    {
        let mut r: Vec<usize> = Vec::new();
        let mut i: usize = 0;
        while i < ids.len()
            invariant
                i <= ids@.len(),
                forall|a: int, b: int| 0 <= a < b < r@.len() ==> r@[a] < r@[b],
                forall|k: int|
                    0 <= k < r@.len() ==> #[trigger] r@[k] < i && self.spec_selects(
                        ids@[r@[k] as int]@,
                    ),
                forall|p: int|
                    0 <= p < i && self.spec_selects(#[trigger] ids@[p]@) ==> r@.contains(
                        p as usize,
                    ),
            decreases ids@.len() - i,
        {
            if self.selects(&ids[i]) {
                let ghost before = r@;
                r.push(i);
                proof {
                    assert forall|p: int|
                        0 <= p < i + 1 && self.spec_selects(#[trigger] ids@[p]@) implies r@.contains(
                        p as usize,
                    ) by {
                        if p < i {
                            let w = choose|w: int| 0 <= w < before.len() && before[w] == p as usize;
                            assert(r@[w] == p as usize);
                        } else {
                            assert(r@[before.len() as int] == i);
                        }
                    }
                }
            }
            i = i + 1;
        }
        r
    }
}

} // verus!
