//! Finding an asset file and naming where an asset lies agree: the file
//! that a pack's scan files under an identifier is the file that the
//! identifier's asset path names.
use vstd::prelude::*;
use vstd::string::*;

use crate::asset::{spec_extension, spec_folder, spec_from_folder, spec_get_id, spec_strip_extension, AssetType};
use crate::extension::{last_char_index, spec_asset_path, spec_file_stem, spec_set_extension, trimmed};
use crate::path_laws::is_name;
use crate::path_spec::{
    body, cut_last, has_no_sep, head, head_len, is_sep, last_sep_index, lemma_body_concat,
    lemma_body_no_sep, lemma_last_sep_index, piece, spec_components, spec_file_name, spec_parent,
    starts_with_cur_dir, starts_with_sep, trim_end, SComponent,
};
use crate::resource::{char_index, lemma_char_index, same_resource};
use crate::spath::{component_texts, spec_push, spec_push_all};

verus! {

/// `names` joined by single separators.
pub open spec fn join(names: Seq<Seq<char>>) -> Seq<char>
    decreases names.len(),
{
    if names.len() == 0 {
        seq![]
    } else if names.len() == 1 {
        names[0]
    } else {
        join(names.drop_last()) + seq!['/'] + names.last()
    }
}

pub open spec fn all_names(names: Seq<Seq<char>>) -> bool {
    forall|i: int| 0 <= i < names.len() ==> is_name(#[trigger] names[i])
}

/// The components that a list of names stands for.
pub open spec fn normals(names: Seq<Seq<char>>) -> Seq<SComponent> {
    names.map_values(|n: Seq<char>| SComponent::Normal(n))
}

proof fn lemma_name_no_sep(n: Seq<char>)
    requires
        is_name(n),
    ensures
        has_no_sep(n),
        body(n) == seq![SComponent::Normal(n)],
        piece(n) == seq![SComponent::Normal(n)],
        !starts_with_sep(n),
        !starts_with_cur_dir(n),
{
    lemma_body_no_sep(n);
    if n.len() > 1 && n[0] == '.' {
        assert(!is_sep(n[1]));
    }
    if n.len() == 1 && n[0] == '.' {
        assert(n =~= seq!['.']);
    }
    assert(!is_sep(n[0]));
}

proof fn lemma_last_sep_after(a: Seq<char>, b: Seq<char>)
    requires
        has_no_sep(b),
    ensures
        last_sep_index(a + seq!['/'] + b) == a.len(),
    decreases b.len(),
{
    let s = a + seq!['/'] + b;
    if b.len() == 0 {
        assert(s.last() == '/');
    } else {
        assert(s.last() == b.last());
        assert(!is_sep(b[b.len() - 1]));
        assert(s.drop_last() =~= a + seq!['/'] + b.drop_last());
        assert(has_no_sep(b.drop_last())) by {
            assert forall|i: int| 0 <= i < b.drop_last().len() implies !is_sep(
                #[trigger] b.drop_last()[i],
            ) by {
                assert(b.drop_last()[i] == b[i]);
            }
        }
        lemma_last_sep_after(a, b.drop_last());
    }
}

proof fn lemma_all_names_drop_last(names: Seq<Seq<char>>)
    requires
        all_names(names),
        names.len() > 0,
    ensures
        all_names(names.drop_last()),
        is_name(names.last()),
{
    assert forall|i: int| 0 <= i < names.drop_last().len() implies is_name(
        #[trigger] names.drop_last()[i],
    ) by {
        assert(names.drop_last()[i] == names[i]);
    }
    assert(is_name(names[names.len() - 1]));
}

/// The components of joined names are the names; the text has no head,
/// does not end in a separator, and loses nothing to trimming.
proof fn lemma_join(names: Seq<Seq<char>>)
    requires
        all_names(names),
        names.len() > 0,
    ensures
        spec_components(join(names)) == normals(names),
        body(join(names)) == normals(names),
        head_len(join(names)) == 0,
        join(names).len() > 0,
        !is_sep(join(names).last()),
        names[0].is_prefix_of(join(names)),
        trim_end(join(names)) == join(names),
        spec_file_name(join(names)) == Some(names.last()),
    decreases names.len(),
{
    let j = join(names);
    lemma_all_names_drop_last(names);
    let last = names.last();
    lemma_name_no_sep(last);
    if names.len() == 1 {
        assert(j == names[0]);
        assert(normals(names) =~= seq![SComponent::Normal(last)]);
        assert(!is_sep(j[j.len() - 1]));
    } else {
        let rest = names.drop_last();
        lemma_join(rest);
        lemma_body_concat(join(rest), last);
        assert(j == join(rest) + seq!['/'] + last);
        assert(rest[0] == names[0]);
        assert forall|i: int| 0 <= i < names[0].len() implies j[i] == names[0][i] by {
            assert(j[i] == join(rest)[i]);
        }
        assert(normals(names) =~= normals(rest) + seq![SComponent::Normal(last)]);
        assert(j.last() == last.last());
        assert(!is_sep(last[last.len() - 1]));
    }
    lemma_name_no_sep(names[0]);
    assert(!is_sep(names[0][0]));
    assert(j[0] == names[0][0]);
    if j.len() > 1 && j[0] == '.' {
        if names[0].len() > 1 {
            assert(j[1] == names[0][1]);
            assert(!is_sep(names[0][1]));
        } else {
            assert(names[0] =~= seq!['.']);
        }
    }
    if j.len() == 1 {
        assert(names.len() == 1);
        assert(names[0].len() == 1);
        if j[0] == '.' {
            assert(names[0] =~= seq!['.']);
        }
    }
    assert(head_len(j) == 0);
    assert(j.skip(0) =~= j);
    assert(head(j) =~= Seq::<SComponent>::empty());
    assert(spec_components(j) =~= body(j));
    // trimming keeps the whole text: its last piece is the last name
    lemma_last_sep_index(j);
    if names.len() == 1 {
        assert(last_sep_index(j) == -1) by {
            if last_sep_index(j) >= 0 {
                assert(is_sep(j[last_sep_index(j)]));
            }
        }
        assert(j.skip(0) =~= last);
    } else {
        lemma_last_sep_after(join(names.drop_last()), last);
        assert(j.skip(last_sep_index(j) + 1) =~= last);
    }
    assert(piece(j.skip(last_sep_index(j) + 1)).len() > 0);
    assert(normals(names).last() == SComponent::Normal(last));
}

/// The parent of joined names is the join of all but the last.
proof fn lemma_join_parent(names: Seq<Seq<char>>)
    requires
        all_names(names),
        names.len() > 0,
    ensures
        spec_parent(join(names)) == join(names.drop_last()),
{
    lemma_join(names);
    let j = join(names);
    let rest = names.drop_last();
    assert(j.skip(0) =~= j);
    assert(j.take(0) =~= Seq::<char>::empty());
    lemma_last_sep_index(j);
    if names.len() == 1 {
        assert(last_sep_index(j) == -1) by {
            if last_sep_index(j) >= 0 {
                lemma_name_no_sep(names[0]);
                assert(is_sep(j[last_sep_index(j)]));
                assert(j[last_sep_index(j)] == names[0][last_sep_index(j)]);
            }
        }
        assert(cut_last(j) =~= Seq::<char>::empty());
        assert(rest =~= Seq::<Seq<char>>::empty());
        assert(trim_end(Seq::<char>::empty()) =~= Seq::<char>::empty());
    } else {
        lemma_all_names_drop_last(names);
        lemma_name_no_sep(names.last());
        lemma_last_sep_after(join(rest), names.last());
        assert(cut_last(j) =~= join(rest));
        lemma_join(rest);
    }
}

/// Pushing a name onto joined names joins it too.
proof fn lemma_push_join(names: Seq<Seq<char>>, n: Seq<char>)
    requires
        all_names(names),
        is_name(n),
    ensures
        spec_push(join(names), n) == join(names.push(n)),
{
    lemma_name_no_sep(n);
    if names.len() == 0 {
        assert(names.push(n) =~= seq![n]);
    } else {
        lemma_join(names);
        assert(names.push(n).drop_last() =~= names);
    }
}

/// Pushing names one by one onto joined names joins them all.
proof fn lemma_push_all_join(prefix: Seq<Seq<char>>, names: Seq<Seq<char>>)
    requires
        all_names(prefix),
        all_names(names),
    ensures
        spec_push_all(join(prefix), names) == join(prefix + names),
    decreases names.len(),
{
    if names.len() == 0 {
        assert(prefix + names =~= prefix);
    } else {
        assert(is_name(names[0]));
        lemma_push_join(prefix, names[0]);
        let p2 = prefix.push(names[0]);
        assert(all_names(p2)) by {
            assert forall|i: int| 0 <= i < p2.len() implies is_name(#[trigger] p2[i]) by {
                if i < prefix.len() {
                    assert(p2[i] == prefix[i]);
                }
            }
        }
        assert(all_names(names.drop_first())) by {
            assert forall|i: int| 0 <= i < names.drop_first().len() implies is_name(
                #[trigger] names.drop_first()[i],
            ) by {
                assert(names.drop_first()[i] == names[i + 1]);
            }
        }
        lemma_push_all_join(p2, names.drop_first());
        assert(p2 + names.drop_first() =~= prefix + names);
    }
}

proof fn lemma_folder_names()
    ensures
        forall|t: AssetType| is_name(#[trigger] spec_folder(t)),
        forall|t: AssetType| #[trigger] spec_from_folder(spec_folder(t)) == Some(t),
        forall|t: AssetType| has_no_sep(#[trigger] spec_extension(t)),
        forall|t: AssetType| #[trigger] spec_extension(t).len() > 0,
{
    reveal_strlit("textures");
    reveal_strlit("maps");
    reveal_strlit("sprites");
    reveal_strlit("atlases");
    reveal_strlit("png");
    reveal_strlit("toml");
    assert("sprites"@ != "textures"@) by {
        assert("sprites"@[1] != "textures"@[1]);
    }
    assert("maps"@ != "textures"@) by {
        assert("maps"@.len() != "textures"@.len());
    }
    assert("maps"@ != "sprites"@) by {
        assert("maps"@.len() != "sprites"@.len());
    }
    assert("atlases"@ != "textures"@) by {
        assert("atlases"@.len() != "textures"@.len());
    }
    assert("atlases"@ != "sprites"@) by {
        assert("atlases"@[0] != "sprites"@[0]);
    }
    assert("atlases"@ != "maps"@) by {
        assert("atlases"@.len() != "maps"@.len());
    }
    assert forall|t: AssetType| is_name(#[trigger] spec_folder(t)) by {
        let f = spec_folder(t);
        assert(f != seq!['.']) by {
            assert(f.len() != 1);
        }
        assert(f != seq!['.', '.']) by {
            assert(f.len() != 2);
        }
    }
}

/// What `get_id` makes of `namespace/folder/dirs/stem.extension`.
proof fn lemma_get_id_of_file(namespace: Seq<char>, t: AssetType, dirs: Seq<Seq<char>>, stem: Seq<char>)
    requires
        is_name(namespace),
        all_names(dirs),
        is_name(stem),
        char_index(stem, '.') == stem.len(),
    ensures
        spec_get_id(
            join(seq![namespace, spec_folder(t)] + dirs + seq![stem + seq!['.'] + spec_extension(t)]),
        ) == Some((t, (namespace, join(dirs.push(stem))))),
{
    lemma_folder_names();
    let folder = spec_folder(t);
    let ext = spec_extension(t);
    let name = stem + seq!['.'] + ext;
    lemma_char_index(stem, '.');
    assert(is_name(name)) by {
        assert forall|i: int| 0 <= i < name.len() implies !is_sep(#[trigger] name[i]) by {
            if i < stem.len() {
                assert(name[i] == stem[i]);
                assert(!is_sep(stem[i]));
            } else if i > stem.len() {
                assert(name[i] == ext[i - stem.len() - 1]);
                assert(!is_sep(ext[i - stem.len() - 1]));
            }
        }
        assert(name != seq!['.']) by {
            assert(name.len() > 2);
        }
        if name =~= seq!['.', '.'] {
            assert(name.len() == stem.len() + 1 + ext.len());
            assert(false);
        }
    }
    let all = seq![namespace, folder] + dirs + seq![name];
    assert(all_names(all)) by {
        assert forall|i: int| 0 <= i < all.len() implies is_name(#[trigger] all[i]) by {
            if i >= 2 && i < all.len() - 1 {
                assert(all[i] == dirs[i - 2]);
            }
        }
    }
    let file = join(all);
    lemma_join(all);
    let parts = component_texts(spec_components(file));
    assert(parts =~= all);
    assert(parts[1] == folder);
    let rest = dirs + seq![name];
    assert(parts.skip(2) =~= rest);
    assert(all_names(rest)) by {
        assert forall|i: int| 0 <= i < rest.len() implies is_name(#[trigger] rest[i]) by {
            assert(rest[i] == all[i + 2]);
        }
    }
    lemma_push_all_join(seq![], rest);
    assert(Seq::<Seq<char>>::empty() + rest =~= rest);
    assert(join(Seq::<Seq<char>>::empty()) =~= Seq::<char>::empty());
    let found = join(rest);
    lemma_join(rest);
    assert(rest.last() == name);
    assert(spec_file_name(found) == Some(name));
    lemma_char_index(name, '.');
    assert(char_index(name, '.') == stem.len()) by {
        assert(name[stem.len() as int] == '.');
        if char_index(name, '.') < stem.len() {
            assert(name[char_index(name, '.')] == stem[char_index(name, '.')]);
        }
    }
    assert(name.take(stem.len() as int) =~= stem);
    lemma_join_parent(rest);
    assert(rest.drop_last() =~= dirs);
    lemma_push_join(dirs, stem);
    assert(spec_strip_extension(found) == join(dirs.push(stem)));
}

/// Where the asset path of `namespace:dirs/stem` points.
proof fn lemma_asset_path_of_id(namespace: Seq<char>, t: AssetType, dirs: Seq<Seq<char>>, stem: Seq<char>)
    requires
        is_name(namespace),
        all_names(dirs),
        is_name(stem),
        char_index(stem, '.') == stem.len(),
    ensures
        spec_asset_path((namespace, join(dirs.push(stem))), t) == join(
            seq![namespace, spec_folder(t)] + dirs.push(stem),
        ) + seq!['.'] + spec_extension(t),
{
    lemma_folder_names();
    let folder = spec_folder(t);
    let ext = spec_extension(t);
    let named = dirs.push(stem);
    assert(all_names(named)) by {
        assert forall|i: int| 0 <= i < named.len() implies is_name(#[trigger] named[i]) by {
            if i < dirs.len() {
                assert(named[i] == dirs[i]);
            }
        }
    }
    let path = join(named);
    lemma_join(named);
    assert(component_texts(spec_components(path)) =~= named);
    assert(all_names(Seq::<Seq<char>>::empty()));
    lemma_push_join(seq![], namespace);
    assert(Seq::<Seq<char>>::empty().push(namespace) =~= seq![namespace]);
    assert(join(Seq::<Seq<char>>::empty()) =~= Seq::<char>::empty());
    assert(spec_push(seq![], namespace) == namespace);
    assert(all_names(seq![namespace])) by {
        assert forall|i: int| 0 <= i < 1 implies is_name(#[trigger] seq![namespace][i]) by {}
    }
    lemma_push_join(seq![namespace], folder);
    assert(seq![namespace].push(folder) =~= seq![namespace, folder]);
    let front = seq![namespace, folder];
    assert(all_names(front)) by {
        assert forall|i: int| 0 <= i < 2 implies is_name(#[trigger] front[i]) by {}
    }
    lemma_push_all_join(front, named);
    let whole = front + named;
    assert(all_names(whole)) by {
        assert forall|i: int| 0 <= i < whole.len() implies is_name(#[trigger] whole[i]) by {
            if i >= 2 {
                assert(whole[i] == named[i - 2]);
            }
        }
    }
    lemma_join(whole);
    let w = join(whole);
    assert(whole.last() == stem);
    assert(spec_file_name(w) == Some(stem));
    lemma_last_char_index_none(stem);
    assert(spec_file_stem(stem) == stem);
    assert(trimmed(w) =~= w) by {
        assert(w.take(0) =~= Seq::<char>::empty());
        assert(w.skip(0) =~= w);
    }
    assert(w.take(w.len() as int) =~= w);
    assert(spec_set_extension(w, ext) == w + seq!['.'] + ext);
}

/// The file that a pack's scan finds is the one that the asset path of the
/// identifier it files it under names: for a file `namespace/folder/dirs/
/// stem.extension`, with the folder and extension of an asset type, single
/// names throughout and no `.` in the stem, `get_id` gives that type and an
/// identifier whose asset path is the file again.
pub proof fn law_asset_path_names_found_file(
    namespace: Seq<char>,
    t: AssetType,
    dirs: Seq<Seq<char>>,
    stem: Seq<char>,
)
    requires
        is_name(namespace),
        all_names(dirs),
        is_name(stem),
        char_index(stem, '.') == stem.len(),
    ensures
        ({
            let file = join(
                seq![namespace, spec_folder(t)] + dirs + seq![stem + seq!['.'] + spec_extension(t)],
            );
            &&& spec_get_id(file) is Some
            &&& spec_get_id(file).unwrap().0 == t
            &&& spec_asset_path(spec_get_id(file).unwrap().1, t) == file
        }),
{
    lemma_get_id_of_file(namespace, t, dirs, stem);
    lemma_asset_path_of_id(namespace, t, dirs, stem);
    let ext = spec_extension(t);
    let front = seq![namespace, spec_folder(t)];
    let all = front + dirs + seq![stem + seq!['.'] + ext];
    let whole = front + dirs.push(stem);
    assert(all.drop_last() =~= whole.drop_last());
    assert(all.len() >= 3);
    assert(join(all) == join(all.drop_last()) + seq!['/'] + (stem + seq!['.'] + ext));
    assert(join(whole) == join(whole.drop_last()) + seq!['/'] + stem);
    assert(join(all) =~= join(whole) + seq!['.'] + ext);
}

/// Reading back an identifier's asset path gives the identifier: for an
/// identifier whose namespace is a single name and whose path's components
/// are names (`dirs`, then a `stem` without `.`), `get_id` of its asset path
/// gives the type and the same resource.
pub proof fn law_get_id_reads_back_asset_path(
    namespace: Seq<char>,
    path: Seq<char>,
    t: AssetType,
    dirs: Seq<Seq<char>>,
    stem: Seq<char>,
)
    requires
        is_name(namespace),
        all_names(dirs),
        is_name(stem),
        char_index(stem, '.') == stem.len(),
        spec_components(path) == normals(dirs.push(stem)),
    ensures
        spec_get_id(spec_asset_path((namespace, path), t)) matches Some((t2, id)) && t2 == t
            && same_resource(id, (namespace, path)),
{
    let named = dirs.push(stem);
    assert(all_names(named)) by {
        assert forall|i: int| 0 <= i < named.len() implies is_name(#[trigger] named[i]) by {
            if i < dirs.len() {
                assert(named[i] == dirs[i]);
            }
        }
    }
    lemma_join(named);
    let clean = join(named);
    assert(spec_asset_path((namespace, path), t) == spec_asset_path((namespace, clean), t));
    lemma_asset_path_of_id(namespace, t, dirs, stem);
    lemma_get_id_of_file(namespace, t, dirs, stem);
    let ext = spec_extension(t);
    let front = seq![namespace, spec_folder(t)];
    let all = front + dirs + seq![stem + seq!['.'] + ext];
    let whole = front + dirs.push(stem);
    assert(all.drop_last() =~= whole.drop_last());
    assert(join(all) == join(all.drop_last()) + seq!['/'] + (stem + seq!['.'] + ext));
    assert(join(whole) == join(whole.drop_last()) + seq!['/'] + stem);
    assert(join(all) =~= join(whole) + seq!['.'] + ext);
}

proof fn lemma_last_char_index_none(s: Seq<char>)
    requires
        char_index(s, '.') == s.len(),
    ensures
        last_char_index(s, '.') == -1,
    decreases s.len(),
{
    lemma_char_index(s, '.');
    if s.len() > 0 {
        assert(s.last() != '.') by {
            assert(s[s.len() - 1] != '.');
        }
        lemma_char_index(s.drop_last(), '.');
        assert(char_index(s.drop_last(), '.') == s.drop_last().len()) by {
            if char_index(s.drop_last(), '.') < s.drop_last().len() {
                assert(s[char_index(s.drop_last(), '.')] == '.');
            }
        }
        lemma_last_char_index_none(s.drop_last());
    }
}

} // verus!
