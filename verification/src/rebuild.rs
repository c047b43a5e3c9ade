//! The reconciler: one rebuild reconciles the whole source tree into the
//! store.
//!
//! A rebuild clears the regenerable tables (posts with their tags and
//! associations, assets, files) and unmarks every photo; re-inserts every
//! static file and processes every post; and finally sweeps away the photo
//! rows whose source files were not seen. `rebuild_spec` states the whole
//! effect as one function of the initial store and the tree.

use crate::asset::Asset;
use crate::config::Config;
use crate::error::{Error, ErrorKind};
use crate::file::File;
use crate::ident::is_hex16;
use crate::photo::Photo;
use crate::post::{post_pass, Post};
use crate::source::{FileCategoryV, PostSource, PostSourceV, SourceTree, SourceTreeV};
use crate::store::{
    AssetLinkV, AssetRowV, FileRowV, PhotoLinkV, PhotoRowV, PostRowV, Store, StoreView, TagRowV,
};
use vstd::prelude::*;

verus! {

/// The store at the start of a rebuild: regenerable tables cleared, every
/// photo row unmarked, users untouched.
pub open spec fn cleared(s: StoreView) -> StoreView {
    StoreView {
        posts: Seq::<PostRowV>::empty(),
        tags: Seq::<TagRowV>::empty(),
        post_photos: Seq::<PhotoLinkV>::empty(),
        post_assets: Seq::<AssetLinkV>::empty(),
        assets: Seq::<AssetRowV>::empty(),
        files: Seq::<FileRowV>::empty(),
        photos: s.photos.map_values(|r: PhotoRowV| r.with_mark(false)),
        users: s.users,
    }
}

/// The store after inserting one static file; `None` when the table's id
/// space is exhausted.
pub open spec fn file_step(s: StoreView, path: Seq<char>, name: Seq<char>, data: Seq<u8>) -> Option<
    StoreView,
> {
    if s.files.len() >= 0x7fff_ffff_ffff_fffe {
        None
    } else {
        Some(
            StoreView {
                files: s.files.push(
                    FileRowV { id: (s.files.len() + 1) as i64, name: name, path: path, data: data },
                ),
                ..s
            },
        )
    }
}

/// The store after inserting every file of one category directory.
pub open spec fn file_cat_pass(s: StoreView, cat: FileCategoryV) -> Option<StoreView>
    decreases cat.entries.len(),
{
    if cat.entries.len() == 0 {
        Some(s)
    } else {
        let shorter = FileCategoryV { entries: cat.entries.drop_last(), ..cat };
        match file_cat_pass(s, shorter) {
            None => None,
            Some(s1) => file_step(s1, cat.path, cat.entries.last().name, cat.entries.last().data),
        }
    }
}

/// The store after the whole files pass.
pub open spec fn files_pass(s: StoreView, cats: Seq<FileCategoryV>) -> Option<StoreView>
    decreases cats.len(),
{
    if cats.len() == 0 {
        Some(s)
    } else {
        match files_pass(s, cats.drop_last()) {
            None => None,
            Some(s1) => file_cat_pass(s1, cats.last()),
        }
    }
}

/// The store after one post of the posts pass: skipped entirely when its
/// sidecar did not decode.
pub open spec fn post_step(s: StoreView, post: PostSourceV, max_size: u32, quality: u8) -> Option<
    StoreView,
> {
    if post.metadata is None {
        Some(s)
    } else {
        post_pass(s, post, max_size, quality)
    }
}

/// The store after the whole posts pass.
pub open spec fn posts_pass(
    s: StoreView,
    posts: Seq<PostSourceV>,
    max_size: u32,
    quality: u8,
) -> Option<StoreView>
    decreases posts.len(),
{
    if posts.len() == 0 {
        Some(s)
    } else {
        match posts_pass(s, posts.drop_last(), max_size, quality) {
            None => None,
            Some(s1) => post_step(s1, posts.last(), max_size, quality),
        }
    }
}

/// The whole rebuild as a function of the initial store and the source
/// tree: clear, files pass, posts pass, sweep. `None` exactly when some
/// store-fatal condition arises, in which case the rebuild aborts.
pub open spec fn rebuild_spec(
    s: StoreView,
    tree: SourceTreeV,
    max_size: u32,
    quality: u8,
) -> Option<StoreView> {
    match files_pass(cleared(s), tree.files) {
        None => None,
        Some(s1) => match posts_pass(s1, tree.posts, max_size, quality) {
            None => None,
            Some(s2) => Some(s2.with_photos(s2.photos.filter(|r: PhotoRowV| r.mark))),
        },
    }
}

/// Whether every decoded sidecar of the tree carries an identifier: what
/// `assign_ids` establishes and `rebuild` requires.
pub open spec fn tree_ids_assigned(tree: SourceTreeV) -> bool {
    forall|i: int|
        0 <= i < tree.posts.len() ==> ((#[trigger] tree.posts[i]).metadata matches Some(m)
            ==> m.id is Some)
}

/// Once a prefix of the categories is fatal, the whole files pass is.
proof fn lemma_files_pass_extend_none(s: StoreView, cats: Seq<FileCategoryV>, k: int)
    requires
        0 <= k <= cats.len(),
        files_pass(s, cats.take(k)) is None,
    ensures
        files_pass(s, cats) is None,
    decreases cats.len() - k,
{
    if k == cats.len() {
        assert(cats.take(k) =~= cats);
    } else {
        assert(cats.take(k + 1).drop_last() =~= cats.take(k));
        lemma_files_pass_extend_none(s, cats, k + 1);
    }
}

/// Once a prefix of the entries is fatal, the whole category is.
proof fn lemma_file_cat_pass_extend_none(s: StoreView, cat: FileCategoryV, k: int)
    requires
        0 <= k <= cat.entries.len(),
        file_cat_pass(s, FileCategoryV { entries: cat.entries.take(k), ..cat }) is None,
    ensures
        file_cat_pass(s, cat) is None,
    decreases cat.entries.len() - k,
{
    if k == cat.entries.len() {
        assert((FileCategoryV { entries: cat.entries.take(k), ..cat }) =~~= cat);
    } else {
        let shorter = FileCategoryV { entries: cat.entries.take(k + 1), ..cat };
        assert(shorter.entries.drop_last() =~= cat.entries.take(k));
        assert((FileCategoryV { entries: shorter.entries.drop_last(), ..shorter }) =~~= (
        FileCategoryV { entries: cat.entries.take(k), ..cat }));
        lemma_file_cat_pass_extend_none(s, cat, k + 1);
    }
}

/// Once a prefix of the posts is fatal, the whole posts pass is.
proof fn lemma_posts_pass_extend_none(
    s: StoreView,
    posts: Seq<PostSourceV>,
    max_size: u32,
    quality: u8,
    k: int,
)
    requires
        0 <= k <= posts.len(),
        posts_pass(s, posts.take(k), max_size, quality) is None,
    ensures
        posts_pass(s, posts, max_size, quality) is None,
    decreases posts.len() - k,
{
    if k == posts.len() {
        assert(posts.take(k) =~= posts);
    } else {
        assert(posts.take(k + 1).drop_last() =~= posts.take(k));
        lemma_posts_pass_extend_none(s, posts, max_size, quality, k + 1);
    }
}

/// Inserts every file of one category directory.
fn insert_file_category(store: &mut Store, path: &String, entries: &Vec<crate::source::FileEntry>)
    -> (r: Result<(), Error>)
    ensures
        r is Ok <==> file_cat_pass(
            old(store)@,
            FileCategoryV { path: path@, entries: entries.deep_view() },
        ) is Some,
        r is Ok ==> Some(final(store)@) == file_cat_pass(
            old(store)@,
            FileCategoryV { path: path@, entries: entries.deep_view() },
        ),
        old(store)@.wf() && r is Ok ==> final(store)@.wf(),
        r matches Err(e) ==> e.kind == ErrorKind::Store,
{
    let ghost s0 = old(store)@;
    let ghost cat = FileCategoryV { path: path@, entries: entries.deep_view() };
    let n = entries.len();
    let mut i: usize = 0;
    while i < n
        invariant
            n == entries.len(),
            0 <= i <= n,
            s0 == old(store)@,
            cat == (FileCategoryV { path: path@, entries: entries.deep_view() }),
            file_cat_pass(s0, FileCategoryV { entries: cat.entries.take(i as int), ..cat })
                == Some(store@),
            s0.wf() ==> store@.wf(),
        decreases n - i,
    {
        proof {
            let longer = FileCategoryV { entries: cat.entries.take(i + 1), ..cat };
            assert(longer.entries.drop_last() =~= cat.entries.take(i as int));
            assert((FileCategoryV { entries: longer.entries.drop_last(), ..longer }) =~~= (
            FileCategoryV { entries: cat.entries.take(i as int), ..cat }));
            assert(longer.entries.last() == cat.entries[i as int]);
            assert(cat.entries[i as int] == entries@[i as int]@);
        }
        let ghost pre = store@;
        let entry = &entries[i];
        match File::new(store, path.as_str(), entry.name.as_str(), crate::text::clone_bytes(
            &entry.data,
        )) {
            Ok(_) => {
                proof {
                    assert(Some(store@) =~~= file_step(
                        pre,
                        cat.path,
                        cat.entries[i as int].name,
                        cat.entries[i as int].data,
                    ));
                }
            },
            Err(e) => {
                proof {
                    assert(file_step(
                        pre,
                        cat.path,
                        cat.entries[i as int].name,
                        cat.entries[i as int].data,
                    ) is None);
                    lemma_file_cat_pass_extend_none(s0, cat, i + 1);
                }
                return Err(e);
            },
        }
        i = i + 1;
    }
    proof {
        assert((FileCategoryV { entries: cat.entries.take(n as int), ..cat }) =~~= cat);
    }
    Ok(())
}

/// Runs one full rebuild of the store against the source tree.
///
/// Step one clears the regenerable tables and unmarks every photo; step
/// two re-inserts every static file; step three processes every post whose
/// sidecar decoded (undecodable sidecars and untransformable photos are
/// skipped); step four sweeps away every photo row left unmarked. The
/// resulting store is exactly `rebuild_spec` of the initial store and the
/// tree; a store-fatal condition (duplicate identifiers, id space
/// exhaustion) aborts with a store error, and `rebuild_spec` says exactly
/// when that happens.
pub fn rebuild(store: &mut Store, cfg: &Config, tree: &SourceTree) -> (r: Result<(), Error>)
    requires
        old(store)@.wf(),
        tree_ids_assigned(tree@),
    ensures
        r is Ok <==> rebuild_spec(
            old(store)@,
            tree@,
            cfg.photo_max_preview_size,
            cfg.photo_quality,
        ) is Some,
        r is Ok ==> Some(final(store)@) == rebuild_spec(
            old(store)@,
            tree@,
            cfg.photo_max_preview_size,
            cfg.photo_quality,
        ) && final(store)@.wf(),
        r matches Err(e) ==> e.kind == ErrorKind::Store,
{
    let ghost s0 = old(store)@;
    let ghost max = cfg.photo_max_preview_size;
    let ghost q = cfg.photo_quality;

    Post::delete_all(store);
    Photo::unmark_all(store);
    File::delete_all(store);
    Asset::delete_all(store);
    proof {
        assert(store@ =~~= cleared(s0));
        let ph = store@.photos;
        assert forall|a: int, b: int| 0 <= a < b < ph.len() implies (#[trigger] ph[a]).id != (
        #[trigger] ph[b]).id && ph[a].source_path != ph[b].source_path by {
            assert(ph[a] == s0.photos[a].with_mark(false));
            assert(ph[b] == s0.photos[b].with_mark(false));
        }
        assert(store@.wf());
    }
    let ghost sc = store@;

    let nf = tree.files.len();
    let mut i: usize = 0;
    while i < nf
        invariant
            nf == tree.files.len(),
            0 <= i <= nf,
            s0 == old(store)@,
            sc == cleared(s0),
            max == cfg.photo_max_preview_size,
            q == cfg.photo_quality,
            files_pass(sc, tree@.files.take(i as int)) == Some(store@),
            store@.wf(),
            tree_ids_assigned(tree@),
        decreases nf - i,
    {
        proof {
            assert(tree@.files.take(i + 1).drop_last() =~= tree@.files.take(i as int));
            assert(tree@.files.take(i + 1).last() == tree@.files[i as int]);
            assert(tree@.files[i as int] == tree.files@[i as int]@);
        }
        let cat = &tree.files[i];
        match insert_file_category(store, &cat.path, &cat.entries) {
            Ok(_) => {},
            Err(e) => {
                proof {
                    lemma_files_pass_extend_none(sc, tree@.files, i + 1);
                }
                return Err(e.context("failed to insert file into database"));
            },
        }
        i = i + 1;
    }
    proof {
        assert(tree@.files.take(nf as int) =~= tree@.files);
    }
    let ghost sf = store@;

    let np = tree.posts.len();
    let mut j: usize = 0;
    while j < np
        invariant
            np == tree.posts.len(),
            0 <= j <= np,
            s0 == old(store)@,
            sc == cleared(s0),
            max == cfg.photo_max_preview_size,
            q == cfg.photo_quality,
            files_pass(sc, tree@.files) == Some(sf),
            posts_pass(sf, tree@.posts.take(j as int), max, q) == Some(store@),
            store@.wf(),
            tree_ids_assigned(tree@),
        decreases np - j,
    {
        proof {
            assert(tree@.posts.take(j + 1).drop_last() =~= tree@.posts.take(j as int));
            assert(tree@.posts.take(j + 1).last() == tree@.posts[j as int]);
            assert(tree@.posts[j as int] == tree.posts@[j as int]@);
        }
        let ghost pre = store@;
        let post = &tree.posts[j];
        let skip = match &post.metadata {
            None => true,
            Some(_) => false,
        };
        if !skip {
            proof {
                assert(tree@.posts[j as int].metadata matches Some(m) && m.id is Some);
            }
            match Post::new(store, cfg, post) {
                Ok(_) => {},
                Err(e) => {
                    proof {
                        assert(post_step(pre, tree@.posts[j as int], max, q) is None);
                        lemma_posts_pass_extend_none(sf, tree@.posts, max, q, j + 1);
                    }
                    return Err(e);
                },
            }
        }
        proof {
            assert(posts_pass(sf, tree@.posts.take(j + 1), max, q) == Some(store@));
        }
        j = j + 1;
    }
    proof {
        assert(tree@.posts.take(np as int) =~= tree@.posts);
    }

    let ghost sp = store@;
    Photo::delete_unmarked(store);
    proof {
        assert(Some(store@) =~~= rebuild_spec(s0, tree@, max, q));
        crate::store::lemma_filter_photos_distinct(sp.photos, |r: PhotoRowV| r.mark);
        assert(store@.wf());
    }
    Ok(())
}

/// How one post looks after the identifier pre-pass: untouched unless its
/// sidecar decoded without an id, in which case exactly the id field is
/// filled with a 16-digit token.
pub open spec fn id_assigned(a: PostSourceV, b: PostSourceV) -> bool {
    if a.metadata matches Some(m) && m.id is None {
        &&& b.metadata matches Some(m2)
        &&& m2.id matches Some(new_id)
        &&& is_hex16(new_id)
        &&& m2 == (crate::metadata::PostMetadataV { id: Some(new_id), ..a.metadata->0 })
        &&& b == (PostSourceV { metadata: Some(m2), ..a })
    } else {
        b == a
    }
}

/// Draws and fills an identifier for every post whose sidecar decoded
/// without one; every other post is returned untouched. The second result
/// lists, in order, the indices of the posts that were changed, so that
/// the caller can persist exactly those sidecars before rebuilding.
///
/// A post that already carries an identifier keeps it: re-running the
/// pre-pass never regenerates an id.
pub fn assign_ids(tree: SourceTree) -> (r: (SourceTree, Vec<usize>))
    ensures
        r.0@.files == tree@.files,
        r.0@.posts.len() == tree@.posts.len(),
        forall|i: int|
            0 <= i < tree@.posts.len() ==> id_assigned(
                tree@.posts[i],
                #[trigger] r.0@.posts[i],
            ),
        tree_ids_assigned(r.0@),
        forall|i: int|
            0 <= i < r.1@.len() ==> (#[trigger] r.1@[i]) < tree@.posts.len()
                && (tree@.posts[r.1@[i] as int].metadata matches Some(m) && m.id is None),
        forall|i: int|
            0 <= i < tree@.posts.len() && ((#[trigger] tree@.posts[i]).metadata matches Some(m)
                && m.id is None) ==> r.1@.contains(i as usize),
{
    let SourceTree { files, posts } = tree;
    let ghost posts0 = posts.deep_view();
    let mut rest = posts;
    let mut out: Vec<PostSource> = Vec::new();
    let mut updated: Vec<usize> = Vec::new();
    while rest.len() > 0
        invariant
            out@.len() + rest@.len() == posts0.len(),
            rest.deep_view() =~= posts0.skip(out@.len() as int),
            forall|i: int|
                0 <= i < out@.len() ==> id_assigned(posts0[i], #[trigger] out.deep_view()[i]),
            forall|i: int|
                0 <= i < out@.len() ==> ((#[trigger] out.deep_view()[i]).metadata matches Some(m)
                    ==> m.id is Some),
            forall|i: int|
                0 <= i < updated@.len() ==> (#[trigger] updated@[i]) < out@.len() && (
                posts0[updated@[i] as int].metadata matches Some(m) && m.id is None),
            forall|i: int|
                0 <= i < out@.len() && ((#[trigger] posts0[i]).metadata matches Some(m)
                    && m.id is None) ==> updated@.contains(i as usize),
        decreases rest.len(),
    {
        let ghost k = out@.len() as int;
        let ghost restpre = rest.deep_view();
        let ghost outpre = out.deep_view();
        let ghost updpre = updated@;
        proof {
            assert(restpre[0] == rest@[0]@);
            assert(restpre[0] == posts0[k]);
        }
        let p = rest.remove(0);
        proof {
            assert(p@ == posts0[k]);
            assert forall|j: int| 0 <= j < rest.deep_view().len() implies rest.deep_view()[j]
                == posts0.skip(k + 1)[j] by {
                assert(rest.deep_view()[j] == rest@[j]@);
                assert(restpre[j + 1] == posts0.skip(k)[j + 1]);
            }
            assert(rest.deep_view() =~= posts0.skip(k + 1));
        }
        let needs_id = match &p.metadata {
            Some(m) => m.id.is_none(),
            None => false,
        };
        if needs_id {
            let PostSource { dir_name, content, metadata, assets, public_photos, private_photos } =
                p;
            let m = match metadata {
                Some(m) => m,
                None => {
                    proof {
                        assert(false);
                    }
                    return (SourceTree { files, posts: out }, updated);
                },
            };
            let fresh = crate::ident::generate_id();
            let m2 = crate::metadata::PostMetadata {
                id: Some(fresh),
                title: m.title,
                description: m.description,
                date: m.date,
                tags: m.tags,
                permalink: m.permalink,
            };
            let p2 = PostSource {
                dir_name,
                content,
                metadata: Some(m2),
                assets,
                public_photos,
                private_photos,
            };
            updated.push(out.len());
            out.push(p2);
            proof {
                assert(out.deep_view()[k] == p2@);
                assert(p2@.metadata == Some(m2@));
                assert(m2@ =~~= (crate::metadata::PostMetadataV {
                    id: Some(fresh@),
                    ..posts0[k].metadata->0
                }));
                assert(p2@ =~~= (PostSourceV { metadata: Some(m2@), ..posts0[k] }));
                assert(id_assigned(posts0[k], out.deep_view()[k]));
            }
        } else {
            out.push(p);
            proof {
                assert(out.deep_view()[k] == p@);
                assert(id_assigned(posts0[k], out.deep_view()[k]));
            }
        }
        proof {
            assert(out@.len() == k + 1);
            assert forall|i: int| 0 <= i < k + 1 implies id_assigned(
                posts0[i],
                #[trigger] out.deep_view()[i],
            ) by {
                if i < k {
                    assert(out.deep_view()[i] == outpre[i]);
                    assert(id_assigned(posts0[i], outpre[i]));
                }
            }
            assert forall|i: int|
                0 <= i < k + 1 && ((#[trigger] posts0[i]).metadata matches Some(m)
                    && m.id is None) implies updated@.contains(i as usize) by {
                if i < k {
                    assert(updpre.contains(i as usize));
                    let w = choose|w: int| 0 <= w < updpre.len() && updpre[w] == i as usize;
                    assert(updated@[w] == i as usize);
                } else {
                    if needs_id {
                        assert(updated@[updated@.len() - 1] == k as usize);
                    }
                }
            }
            assert(rest.deep_view() =~= posts0.skip(out@.len() as int));
        }
    }
    proof {
        assert(out@.len() == posts0.len());
        assert(out.deep_view() =~= out.deep_view());
    }
    let r = SourceTree { files, posts: out };
    proof {
        assert(r@.posts =~= out.deep_view());
        assert(r@.files =~= files.deep_view());
    }
    (r, updated)
}

} // verus!
