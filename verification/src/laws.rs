//! The general guarantees of the pipeline, stated and proved over the same
//! spec functions that the executable functions' contracts use.

use crate::ident::derived_id;
use crate::imaging::renditions_of;
use crate::photo::{
    created_photo_row, has_photo_id, has_photo_path, photo_path_index, photo_step,
    photo_sync_photos, photo_sync_result, photos_pass, sync_case_of, PhotoSourceV, SyncCase,
};
use crate::post::{post_pass, tag_rows_for};
use crate::rebuild::{cleared, file_cat_pass, files_pass, posts_pass, rebuild_spec};
use crate::source::{FileCategoryV, PostSourceV, SourceTreeV};
use crate::store::{
    lemma_filter_all_false, lemma_filter_all_true, PhotoRowV, StoreView, TagRowV,
};
use vstd::prelude::*;


verus! {

/// Tag replacement is exact: after replacing a post's tag set, reading the
/// post's tags back yields exactly the list that was written, in order,
/// with no residue from any earlier tag rows.
///
/// `tags0` is the tag table before the replacement; the replacement and
/// the read-back are the very expressions that `Post::set_tags` and
/// `Post::get_tags` are specified with.
pub proof fn lemma_tag_replace(tags0: Seq<TagRowV>, id: Seq<char>, tags: Seq<Seq<char>>)
    ensures
        (tags0.filter(|t: TagRowV| t.post_id != id) + tag_rows_for(id, tags)).filter(
            |t: TagRowV| t.post_id == id,
        ).map_values(|t: TagRowV| t.tag) == tags,
{
    let keep = |t: TagRowV| t.post_id != id;
    let mine = |t: TagRowV| t.post_id == id;
    let a = tags0.filter(keep);
    let b = tag_rows_for(id, tags);
    Seq::filter_distributes_over_add(a, b, mine);
    assert forall|i: int| 0 <= i < a.len() implies !mine(#[trigger] a[i]) by {
        tags0.lemma_filter_pred(keep, i);
    }
    lemma_filter_all_false(a, mine);
    assert forall|i: int| 0 <= i < b.len() implies mine(#[trigger] b[i]) by {}
    lemma_filter_all_true(b, mine);
    assert((a + b).filter(mine) =~= b);
    assert((a + b).filter(mine).map_values(|t: TagRowV| t.tag) =~= tags);
}

/// Whether the photo table holds pairwise distinct source paths and
/// identifiers (part of the store invariant).
pub open spec fn photos_distinct(photos: Seq<PhotoRowV>) -> bool {
    forall|a: int, b: int|
        0 <= a < b < photos.len() ==> (#[trigger] photos[a]).id != (#[trigger] photos[b]).id
            && photos[a].source_path != photos[b].source_path
}

/// Change detection is idempotent at the level of a single photo: once a
/// sync has reused or created the row for a source file, syncing the same
/// unchanged file again only re-marks that row — the table, and in
/// particular the stored rendition bytes, are unchanged, and no transform
/// result is consulted.
pub proof fn lemma_photo_sync_idempotent(
    photos: Seq<PhotoRowV>,
    src: PhotoSourceV,
    is_private: bool,
    max_size: u32,
    quality: u8,
)
    requires
        photos_distinct(photos),
        sync_case_of(photos, src, max_size, quality) is Reused || sync_case_of(
            photos,
            src,
            max_size,
            quality,
        ) is Created,
    ensures
        sync_case_of(
            photo_sync_photos(photos, src, is_private, max_size, quality),
            src,
            max_size,
            quality,
        ) is Reused,
        photo_sync_photos(
            photo_sync_photos(photos, src, is_private, max_size, quality),
            src,
            is_private,
            max_size,
            quality,
        ) == photo_sync_photos(photos, src, is_private, max_size, quality),
{
    let after = photo_sync_photos(photos, src, is_private, max_size, quality);
    if sync_case_of(photos, src, max_size, quality) is Reused {
        let i = photo_path_index(photos, src.path);
        assert(0 <= i < photos.len() && photos[i].source_path == src.path);
        assert(after =~= photos.update(i, photos[i].with_mark(true)));
        assert(after[i].source_path == src.path);
        assert(has_photo_path(after, src.path));
        let j = photo_path_index(after, src.path);
        assert(0 <= j < after.len() && after[j].source_path == src.path);
        assert forall|k: int| 0 <= k < after.len() && k != i implies (
        #[trigger] after[k]).source_path != src.path by {
            assert(after[k] == photos[k]);
        }
        assert(j == i);
        assert(after[j].source_time == photos[i].source_time >= src.mtime);
        assert(sync_case_of(after, src, max_size, quality) is Reused);
        assert(photo_sync_photos(after, src, is_private, max_size, quality) =~= after.update(
            j,
            after[j].with_mark(true),
        ));
        assert(after.update(j, after[j].with_mark(true)) =~= after);
    } else {
        let base = crate::photo::sync_base(photos, src.path);
        let r0 = renditions_of(src.data, max_size, quality)->0;
        let row = created_photo_row(src, is_private, r0.0, r0.1);
        assert(after =~= base.push(row));
        let i = after.len() - 1;
        assert(after[i] == row);
        assert(after[i].source_path == src.path);
        assert(has_photo_path(after, src.path));
        let j = photo_path_index(after, src.path);
        assert(0 <= j < after.len() && after[j].source_path == src.path);
        assert forall|k: int| 0 <= k < after.len() && k != i implies (
        #[trigger] after[k]).source_path != src.path by {
            assert(after[k] == base[k]);
            if has_photo_path(photos, src.path) {
                let d = photo_path_index(photos, src.path);
                assert(0 <= d < photos.len() && photos[d].source_path == src.path);
                assert(base =~= photos.remove(d));
            }
        }
        assert(j == i);
        assert(after[j].source_time == src.mtime);
        assert(sync_case_of(after, src, max_size, quality) is Reused);
        assert(photo_sync_photos(after, src, is_private, max_size, quality) =~= after.update(
            j,
            after[j].with_mark(true),
        ));
        assert(after[j].mark);
        assert(after.update(j, after[j].with_mark(true)) =~= after);
    }
}

/// Change detection recreates exactly the stale row: when the stored row
/// for a path is older than the source file and the transform succeeds,
/// the sync removes that row and appends a fresh one holding the new
/// modification time and the freshly computed renditions — under the same
/// identifier, because the identifier depends on the path alone.
pub proof fn lemma_change_detection(
    photos: Seq<PhotoRowV>,
    src: PhotoSourceV,
    is_private: bool,
    max_size: u32,
    quality: u8,
)
    requires
        photos_distinct(photos),
        has_photo_path(photos, src.path),
        photos[photo_path_index(photos, src.path)].source_time < src.mtime,
        photos[photo_path_index(photos, src.path)].id == derived_id(src.path),
        renditions_of(src.data, max_size, quality) is Some,
    ensures
        sync_case_of(photos, src, max_size, quality) is Created,
        photo_sync_photos(photos, src, is_private, max_size, quality) == photos.remove(
            photo_path_index(photos, src.path),
        ).push(
            created_photo_row(
                src,
                is_private,
                (renditions_of(src.data, max_size, quality)->0).0,
                (renditions_of(src.data, max_size, quality)->0).1,
            ),
        ),
        created_photo_row(
            src,
            is_private,
            (renditions_of(src.data, max_size, quality)->0).0,
            (renditions_of(src.data, max_size, quality)->0).1,
        ).id == photos[photo_path_index(photos, src.path)].id,
        created_photo_row(
            src,
            is_private,
            (renditions_of(src.data, max_size, quality)->0).0,
            (renditions_of(src.data, max_size, quality)->0).1,
        ).source_time == src.mtime,
{
    let i = photo_path_index(photos, src.path);
    assert(0 <= i < photos.len() && photos[i].source_path == src.path);
    let base = crate::photo::sync_base(photos, src.path);
    assert(base =~= photos.remove(i));
    assert forall|k: int| 0 <= k < base.len() implies (#[trigger] base[k]).id != derived_id(
        src.path,
    ) by {
        if k < i {
            assert(base[k] == photos[k]);
            assert(photos[k].id != photos[i].id);
        } else {
            assert(base[k] == photos[k + 1]);
            assert(photos[k + 1].id != photos[i].id);
        }
    }
    assert(!has_photo_id(base, derived_id(src.path)));
    assert(sync_case_of(photos, src, max_size, quality) is Created);
}

/// The regenerable entity tables of two stores, compared: posts, tags,
/// assets, files, and the post-to-asset links. These are the tables the
/// rebuild fully destroys and recreates.
pub open spec fn same_entities(a: StoreView, b: StoreView) -> bool {
    a.posts == b.posts && a.tags == b.tags && a.assets == b.assets && a.files == b.files
        && a.post_assets == b.post_assets
}

proof fn lemma_photos_pass_same_entities(
    s: StoreView,
    post_id: Seq<char>,
    items: Seq<PhotoSourceV>,
    is_private: bool,
    max_size: u32,
    quality: u8,
)
    requires
        photos_pass(s, post_id, items, is_private, max_size, quality) is Some,
    ensures
        same_entities(
            photos_pass(s, post_id, items, is_private, max_size, quality)->0,
            s,
        ),
    decreases items.len(),
{
    if items.len() == 0 {
    } else {
        lemma_photos_pass_same_entities(
            s,
            post_id,
            items.drop_last(),
            is_private,
            max_size,
            quality,
        );
    }
}

proof fn lemma_assets_pass_two_runs(
    s1: StoreView,
    s2: StoreView,
    post_id: Seq<char>,
    items: Seq<crate::source::FileEntryV>,
)
    requires
        same_entities(s1, s2),
        crate::asset::assets_pass(s1, post_id, items) is Some,
        crate::asset::assets_pass(s2, post_id, items) is Some,
    ensures
        same_entities(
            crate::asset::assets_pass(s1, post_id, items)->0,
            crate::asset::assets_pass(s2, post_id, items)->0,
        ),
    decreases items.len(),
{
    if items.len() == 0 {
    } else {
        lemma_assets_pass_two_runs(s1, s2, post_id, items.drop_last());
    }
}

proof fn lemma_post_pass_two_runs(
    s1: StoreView,
    s2: StoreView,
    post: PostSourceV,
    max_size: u32,
    quality: u8,
)
    requires
        same_entities(s1, s2),
        post_pass(s1, post, max_size, quality) is Some,
        post_pass(s2, post, max_size, quality) is Some,
    ensures
        same_entities(post_pass(s1, post, max_size, quality)->0, post_pass(s2, post, max_size, quality)->0),
{
    let row = crate::post::post_row_of(post);
    let a1 = StoreView { posts: s1.posts.push(row), ..s1 };
    let a2 = StoreView { posts: s2.posts.push(row), ..s2 };
    assert(same_entities(a1, a2));
    lemma_assets_pass_two_runs(a1, a2, row.id, post.assets);
    let b1 = crate::asset::assets_pass(a1, row.id, post.assets)->0;
    let b2 = crate::asset::assets_pass(a2, row.id, post.assets)->0;
    lemma_photos_pass_same_entities(b1, row.id, post.public_photos, false, max_size, quality);
    lemma_photos_pass_same_entities(b2, row.id, post.public_photos, false, max_size, quality);
    let c1 = photos_pass(b1, row.id, post.public_photos, false, max_size, quality)->0;
    let c2 = photos_pass(b2, row.id, post.public_photos, false, max_size, quality)->0;
    lemma_photos_pass_same_entities(c1, row.id, post.private_photos, true, max_size, quality);
    lemma_photos_pass_same_entities(c2, row.id, post.private_photos, true, max_size, quality);
}

proof fn lemma_posts_pass_two_runs(
    s1: StoreView,
    s2: StoreView,
    posts: Seq<PostSourceV>,
    max_size: u32,
    quality: u8,
)
    requires
        same_entities(s1, s2),
        posts_pass(s1, posts, max_size, quality) is Some,
        posts_pass(s2, posts, max_size, quality) is Some,
    ensures
        same_entities(
            posts_pass(s1, posts, max_size, quality)->0,
            posts_pass(s2, posts, max_size, quality)->0,
        ),
    decreases posts.len(),
{
    if posts.len() == 0 {
    } else {
        lemma_posts_pass_two_runs(s1, s2, posts.drop_last(), max_size, quality);
        let e1 = posts_pass(s1, posts.drop_last(), max_size, quality)->0;
        let e2 = posts_pass(s2, posts.drop_last(), max_size, quality)->0;
        if posts.last().metadata is None {
        } else {
            lemma_post_pass_two_runs(e1, e2, posts.last(), max_size, quality);
        }
    }
}

proof fn lemma_file_cat_pass_two_runs(s1: StoreView, s2: StoreView, cat: FileCategoryV)
    requires
        same_entities(s1, s2),
        file_cat_pass(s1, cat) is Some,
        file_cat_pass(s2, cat) is Some,
    ensures
        same_entities(file_cat_pass(s1, cat)->0, file_cat_pass(s2, cat)->0),
    decreases cat.entries.len(),
{
    if cat.entries.len() == 0 {
    } else {
        let shorter = FileCategoryV { entries: cat.entries.drop_last(), ..cat };
        lemma_file_cat_pass_two_runs(s1, s2, shorter);
    }
}

proof fn lemma_files_pass_two_runs(s1: StoreView, s2: StoreView, cats: Seq<FileCategoryV>)
    requires
        same_entities(s1, s2),
        files_pass(s1, cats) is Some,
        files_pass(s2, cats) is Some,
    ensures
        same_entities(files_pass(s1, cats)->0, files_pass(s2, cats)->0),
    decreases cats.len(),
{
    if cats.len() == 0 {
    } else {
        lemma_files_pass_two_runs(s1, s2, cats.drop_last());
        lemma_file_cat_pass_two_runs(
            files_pass(s1, cats.drop_last())->0,
            files_pass(s2, cats.drop_last())->0,
            cats.last(),
        );
    }
}

/// Files, assets, posts, tags and post-to-asset links are unconditional:
/// any two successful rebuilds of the same source tree leave these tables
/// identical, whatever stores they started from. In particular, rebuilding
/// the same tree twice does not grow any of them.
pub proof fn lemma_unconditional_entities(
    s1: StoreView,
    s2: StoreView,
    tree: SourceTreeV,
    max_size: u32,
    quality: u8,
)
    requires
        rebuild_spec(s1, tree, max_size, quality) is Some,
        rebuild_spec(s2, tree, max_size, quality) is Some,
    ensures
        same_entities(
            rebuild_spec(s1, tree, max_size, quality)->0,
            rebuild_spec(s2, tree, max_size, quality)->0,
        ),
{
    let c1 = cleared(s1);
    let c2 = cleared(s2);
    assert(same_entities(c1, c2));
    lemma_files_pass_two_runs(c1, c2, tree.files);
    lemma_posts_pass_two_runs(
        files_pass(c1, tree.files)->0,
        files_pass(c2, tree.files)->0,
        tree.posts,
        max_size,
        quality,
    );
}

/// The source paths of one post's photo files.
pub open spec fn post_photo_paths(post: PostSourceV) -> Set<Seq<char>> {
    Set::new(
        |p: Seq<char>|
            (exists|i: int|
                0 <= i < post.public_photos.len() && (#[trigger] post.public_photos[i]).path
                    == p) || (exists|i: int|
                0 <= i < post.private_photos.len() && (#[trigger] post.private_photos[i]).path
                    == p),
    )
}

/// The source paths of every photo file of the tree.
pub open spec fn tree_photo_paths(tree: SourceTreeV) -> Set<Seq<char>> {
    Set::new(
        |p: Seq<char>|
            exists|k: int|
                0 <= k < tree.posts.len() && post_photo_paths(#[trigger] tree.posts[k]).contains(
                    p,
                ),
    )
}

/// Every marked photo row's path lies in `allowed`.
pub open spec fn marked_within(photos: Seq<PhotoRowV>, allowed: Set<Seq<char>>) -> bool {
    forall|i: int|
        0 <= i < photos.len() && (#[trigger] photos[i]).mark ==> allowed.contains(
            photos[i].source_path,
        )
}

proof fn lemma_sync_marked_within(
    photos: Seq<PhotoRowV>,
    src: PhotoSourceV,
    is_private: bool,
    max_size: u32,
    quality: u8,
    allowed: Set<Seq<char>>,
)
    requires
        marked_within(photos, allowed),
        allowed.contains(src.path),
    ensures
        marked_within(photo_sync_photos(photos, src, is_private, max_size, quality), allowed),
{
    let after = photo_sync_photos(photos, src, is_private, max_size, quality);
    let base = crate::photo::sync_base(photos, src.path);
    assert forall|i: int| 0 <= i < base.len() && (#[trigger] base[i]).mark implies allowed.contains(
        base[i].source_path,
    ) by {
        if has_photo_path(photos, src.path) {
            let d = photo_path_index(photos, src.path);
            assert(base =~= photos.remove(d));
            if i < d {
                assert(base[i] == photos[i]);
            } else {
                assert(base[i] == photos[i + 1]);
            }
        }
    }
    match sync_case_of(photos, src, max_size, quality) {
        SyncCase::Reused => {
            let d = photo_path_index(photos, src.path);
            assert(0 <= d < photos.len() && photos[d].source_path == src.path);
            assert forall|i: int|
                0 <= i < after.len() && (#[trigger] after[i]).mark implies allowed.contains(
                after[i].source_path,
            ) by {
                if i != d {
                    assert(after[i] == photos[i]);
                }
            }
        },
        SyncCase::Created => {
            assert forall|i: int|
                0 <= i < after.len() && (#[trigger] after[i]).mark implies allowed.contains(
                after[i].source_path,
            ) by {
                if i < after.len() - 1 {
                    assert(after[i] == base[i]);
                }
            }
        },
        _ => {
            assert(after == base);
        },
    }
}

proof fn lemma_photos_pass_marked_within(
    s: StoreView,
    post_id: Seq<char>,
    items: Seq<PhotoSourceV>,
    is_private: bool,
    max_size: u32,
    quality: u8,
    allowed: Set<Seq<char>>,
)
    requires
        marked_within(s.photos, allowed),
        forall|i: int|
            0 <= i < items.len() ==> allowed.contains((#[trigger] items[i]).path),
        photos_pass(s, post_id, items, is_private, max_size, quality) is Some,
    ensures
        marked_within(
            photos_pass(s, post_id, items, is_private, max_size, quality)->0.photos,
            allowed,
        ),
    decreases items.len(),
{
    if items.len() == 0 {
    } else {
        lemma_photos_pass_marked_within(
            s,
            post_id,
            items.drop_last(),
            is_private,
            max_size,
            quality,
            allowed,
        );
        let s1 = photos_pass(s, post_id, items.drop_last(), is_private, max_size, quality)->0;
        lemma_sync_marked_within(
            s1.photos,
            items.last(),
            is_private,
            max_size,
            quality,
            allowed,
        );
    }
}

proof fn lemma_assets_pass_keeps_photos(
    s: StoreView,
    post_id: Seq<char>,
    items: Seq<crate::source::FileEntryV>,
)
    requires
        crate::asset::assets_pass(s, post_id, items) is Some,
    ensures
        crate::asset::assets_pass(s, post_id, items)->0.photos == s.photos,
        crate::asset::assets_pass(s, post_id, items)->0.post_photos == s.post_photos,
    decreases items.len(),
{
    if items.len() == 0 {
    } else {
        lemma_assets_pass_keeps_photos(s, post_id, items.drop_last());
    }
}

proof fn lemma_post_pass_marked_within(
    s: StoreView,
    post: PostSourceV,
    max_size: u32,
    quality: u8,
    allowed: Set<Seq<char>>,
)
    requires
        marked_within(s.photos, allowed),
        forall|p: Seq<char>| post_photo_paths(post).contains(p) ==> allowed.contains(p),
        post_pass(s, post, max_size, quality) is Some,
    ensures
        marked_within(post_pass(s, post, max_size, quality)->0.photos, allowed),
{
    let row = crate::post::post_row_of(post);
    let s1 = StoreView { posts: s.posts.push(row), ..s };
    lemma_assets_pass_keeps_photos(s1, row.id, post.assets);
    let s2 = crate::asset::assets_pass(s1, row.id, post.assets)->0;
    assert forall|i: int|
        0 <= i < post.public_photos.len() implies allowed.contains(
        (#[trigger] post.public_photos[i]).path,
    ) by {
        assert(post_photo_paths(post).contains(post.public_photos[i].path));
    }
    assert forall|i: int|
        0 <= i < post.private_photos.len() implies allowed.contains(
        (#[trigger] post.private_photos[i]).path,
    ) by {
        assert(post_photo_paths(post).contains(post.private_photos[i].path));
    }
    lemma_photos_pass_marked_within(
        s2,
        row.id,
        post.public_photos,
        false,
        max_size,
        quality,
        allowed,
    );
    let s3 = photos_pass(s2, row.id, post.public_photos, false, max_size, quality)->0;
    lemma_photos_pass_marked_within(
        s3,
        row.id,
        post.private_photos,
        true,
        max_size,
        quality,
        allowed,
    );
}

proof fn lemma_posts_pass_marked_within(
    s: StoreView,
    posts: Seq<PostSourceV>,
    max_size: u32,
    quality: u8,
    allowed: Set<Seq<char>>,
)
    requires
        marked_within(s.photos, allowed),
        forall|k: int, p: Seq<char>|
            0 <= k < posts.len() && #[trigger] post_photo_paths(posts[k]).contains(p)
                ==> allowed.contains(p),
        posts_pass(s, posts, max_size, quality) is Some,
    ensures
        marked_within(posts_pass(s, posts, max_size, quality)->0.photos, allowed),
    decreases posts.len(),
{
    if posts.len() == 0 {
    } else {
        lemma_posts_pass_marked_within(s, posts.drop_last(), max_size, quality, allowed);
        let s1 = posts_pass(s, posts.drop_last(), max_size, quality)->0;
        if posts.last().metadata is None {
        } else {
            assert forall|p: Seq<char>|
                post_photo_paths(posts.last()).contains(p) implies allowed.contains(p) by {
                assert(post_photo_paths(posts[posts.len() - 1]).contains(p));
            }
            lemma_post_pass_marked_within(s1, posts.last(), max_size, quality, allowed);
        }
    }
}

proof fn lemma_files_pass_keeps_photos(s: StoreView, cats: Seq<FileCategoryV>)
    requires
        files_pass(s, cats) is Some,
    ensures
        files_pass(s, cats)->0.photos == s.photos,
        files_pass(s, cats)->0.post_photos == s.post_photos,
    decreases cats.len(),
{
    if cats.len() == 0 {
    } else {
        lemma_files_pass_keeps_photos(s, cats.drop_last());
        lemma_file_cat_keeps_photos(files_pass(s, cats.drop_last())->0, cats.last());
    }
}

proof fn lemma_file_cat_keeps_photos(s: StoreView, cat: FileCategoryV)
    requires
        file_cat_pass(s, cat) is Some,
    ensures
        file_cat_pass(s, cat)->0.photos == s.photos,
        file_cat_pass(s, cat)->0.post_photos == s.post_photos,
    decreases cat.entries.len(),
{
    if cat.entries.len() == 0 {
    } else {
        let shorter = FileCategoryV { entries: cat.entries.drop_last(), ..cat };
        lemma_file_cat_keeps_photos(s, shorter);
    }
}

/// Deletion propagates: after a successful rebuild, no photo row holds a
/// source path that the tree does not hold. Removing a photo file from the
/// tree therefore removes its row on the next rebuild, and with it
/// everything the row carried.
pub proof fn lemma_deletion_propagation(
    s: StoreView,
    tree: SourceTreeV,
    max_size: u32,
    quality: u8,
    p: Seq<char>,
)
    requires
        rebuild_spec(s, tree, max_size, quality) is Some,
        !tree_photo_paths(tree).contains(p),
    ensures
        !has_photo_path(rebuild_spec(s, tree, max_size, quality)->0.photos, p),
{
    let allowed = tree_photo_paths(tree);
    let c = cleared(s);
    assert forall|i: int|
        0 <= i < c.photos.len() && (#[trigger] c.photos[i]).mark implies allowed.contains(
        c.photos[i].source_path,
    ) by {
        assert(c.photos[i] == s.photos[i].with_mark(false));
    }
    lemma_files_pass_keeps_photos(c, tree.files);
    let s1 = files_pass(c, tree.files)->0;
    lemma_posts_pass_marked_within(s1, tree.posts, max_size, quality, allowed);
    let s2 = posts_pass(s1, tree.posts, max_size, quality)->0;
    let fin = rebuild_spec(s, tree, max_size, quality)->0;
    assert(fin.photos == s2.photos.filter(|r: PhotoRowV| r.mark));
    assert forall|i: int| 0 <= i < fin.photos.len() implies (#[trigger] fin.photos[i]).source_path
        != p by {
        s2.photos.lemma_filter_pred(|r: PhotoRowV| r.mark, i);
        assert(fin.photos.contains(fin.photos[i]));
        crate::store::lemma_filter_subset(s2.photos, |r: PhotoRowV| r.mark, fin.photos[i]);
        let w = choose|w: int| 0 <= w < s2.photos.len() && s2.photos[w] == fin.photos[i];
        assert(s2.photos[w].mark);
        assert(allowed.contains(s2.photos[w].source_path));
    }
}

proof fn lemma_assets_pass_keeps_posts(
    s: StoreView,
    post_id: Seq<char>,
    items: Seq<crate::source::FileEntryV>,
)
    requires
        crate::asset::assets_pass(s, post_id, items) is Some,
    ensures
        crate::asset::assets_pass(s, post_id, items)->0.posts == s.posts,
    decreases items.len(),
{
    if items.len() == 0 {
    } else {
        lemma_assets_pass_keeps_posts(s, post_id, items.drop_last());
    }
}

proof fn lemma_photos_pass_keeps_posts(
    s: StoreView,
    post_id: Seq<char>,
    items: Seq<PhotoSourceV>,
    is_private: bool,
    max_size: u32,
    quality: u8,
)
    requires
        photos_pass(s, post_id, items, is_private, max_size, quality) is Some,
    ensures
        photos_pass(s, post_id, items, is_private, max_size, quality)->0.posts == s.posts,
    decreases items.len(),
{
    if items.len() == 0 {
    } else {
        lemma_photos_pass_keeps_posts(s, post_id, items.drop_last(), is_private, max_size, quality);
    }
}

proof fn lemma_files_pass_keeps_posts(s: StoreView, cats: Seq<FileCategoryV>)
    requires
        files_pass(s, cats) is Some,
    ensures
        files_pass(s, cats)->0.posts == s.posts,
    decreases cats.len(),
{
    if cats.len() == 0 {
    } else {
        lemma_files_pass_keeps_posts(s, cats.drop_last());
        lemma_file_cat_keeps_posts(files_pass(s, cats.drop_last())->0, cats.last());
    }
}

proof fn lemma_file_cat_keeps_posts(s: StoreView, cat: FileCategoryV)
    requires
        file_cat_pass(s, cat) is Some,
    ensures
        file_cat_pass(s, cat)->0.posts == s.posts,
    decreases cat.entries.len(),
{
    if cat.entries.len() == 0 {
    } else {
        let shorter = FileCategoryV { entries: cat.entries.drop_last(), ..cat };
        lemma_file_cat_keeps_posts(s, shorter);
    }
}

proof fn lemma_posts_pass_rows_from(
    s: StoreView,
    posts: Seq<PostSourceV>,
    max_size: u32,
    quality: u8,
)
    requires
        posts_pass(s, posts, max_size, quality) is Some,
    ensures
        posts_pass(s, posts, max_size, quality)->0.posts.len() >= s.posts.len(),
        forall|i: int|
            0 <= i < s.posts.len() ==> #[trigger] posts_pass(s, posts, max_size, quality)->0.posts[i]
                == s.posts[i],
        forall|i: int|
            s.posts.len() <= i < posts_pass(s, posts, max_size, quality)->0.posts.len()
                ==> exists|k: int|
                0 <= k < posts.len() && (#[trigger] posts[k]).metadata is Some && #[trigger] posts_pass(
                    s,
                    posts,
                    max_size,
                    quality,
                )->0.posts[i] == crate::post::post_row_of(posts[k]),
    decreases posts.len(),
{
    if posts.len() == 0 {
    } else {
        lemma_posts_pass_rows_from(s, posts.drop_last(), max_size, quality);
        let s1 = posts_pass(s, posts.drop_last(), max_size, quality)->0;
        let fin = posts_pass(s, posts, max_size, quality)->0;
        if posts.last().metadata is None {
            assert(fin == posts_pass(s, posts.drop_last(), max_size, quality)->0);
            assert forall|i: int| #![trigger fin.posts[i]]
                0 <= i < fin.posts.len() && i >= s.posts.len() implies exists|k: int|
                0 <= k < posts.len() && (#[trigger] posts[k]).metadata is Some && fin.posts[i]
                    == crate::post::post_row_of(posts[k]) by {
                let k0 = choose|k: int|
                    0 <= k < posts.drop_last().len() && (
                    #[trigger] posts.drop_last()[k]).metadata is Some && s1.posts[i]
                        == crate::post::post_row_of(posts.drop_last()[k]);
                assert(posts[k0] == posts.drop_last()[k0]);
            }
        } else {
            let post = posts.last();
            let row = crate::post::post_row_of(post);
            let s2 = StoreView { posts: s1.posts.push(row), ..s1 };
            lemma_assets_pass_keeps_posts(s2, row.id, post.assets);
            let s3 = crate::asset::assets_pass(s2, row.id, post.assets)->0;
            lemma_photos_pass_keeps_posts(s3, row.id, post.public_photos, false, max_size, quality);
            let s4 = photos_pass(s3, row.id, post.public_photos, false, max_size, quality)->0;
            lemma_photos_pass_keeps_posts(s4, row.id, post.private_photos, true, max_size, quality);
            assert forall|i: int| #![trigger fin.posts[i]]
                0 <= i < fin.posts.len() && i >= s.posts.len() implies exists|k: int|
                0 <= k < posts.len() && (#[trigger] posts[k]).metadata is Some && fin.posts[i]
                    == crate::post::post_row_of(posts[k]) by {
                if i < s1.posts.len() {
                    let k0 = choose|k: int|
                        0 <= k < posts.drop_last().len() && (
                        #[trigger] posts.drop_last()[k]).metadata is Some && s1.posts[i]
                            == crate::post::post_row_of(posts.drop_last()[k]);
                    assert(posts[k0] == posts.drop_last()[k0]);
                    assert(fin.posts[i] == s1.posts[i]);
                } else {
                    assert(fin.posts[i] == row);
                    assert(posts[posts.len() - 1].metadata is Some);
                }
            }
        }
    }
}

/// Identifier persistence: after a successful rebuild, every stored post
/// row is exactly the row of one decoded tree post. In particular, a post
/// whose sidecar already carries an identifier is stored under exactly
/// that identifier — the rebuild never regenerates one.
pub proof fn lemma_posts_carry_sidecar_ids(
    s: StoreView,
    tree: SourceTreeV,
    max_size: u32,
    quality: u8,
)
    requires
        rebuild_spec(s, tree, max_size, quality) is Some,
    ensures
        forall|i: int| #![trigger rebuild_spec(s, tree, max_size, quality)->0.posts[i]]
            0 <= i < rebuild_spec(s, tree, max_size, quality)->0.posts.len() ==> exists|k: int|
                0 <= k < tree.posts.len() && (#[trigger] tree.posts[k]).metadata is Some
                    && rebuild_spec(s, tree, max_size, quality)->0.posts[i]
                    == crate::post::post_row_of(tree.posts[k]),
{
    let c = cleared(s);
    lemma_files_pass_keeps_posts(c, tree.files);
    let s1 = files_pass(c, tree.files)->0;
    lemma_posts_pass_rows_from(s1, tree.posts, max_size, quality);
    let s2 = posts_pass(s1, tree.posts, max_size, quality)->0;
    let fin = rebuild_spec(s, tree, max_size, quality)->0;
    assert(fin.posts == s2.posts);
    assert(s1.posts.len() == 0);
}

/// Whether some photo row is marked and holds this identifier.
pub open spec fn has_marked_id(photos: Seq<PhotoRowV>, id: Seq<char>) -> bool {
    exists|i: int| 0 <= i < photos.len() && (#[trigger] photos[i]).mark && photos[i].id == id
}

/// Whether every post-to-photo association names the id of some marked
/// photo row.
pub open spec fn links_live(s: StoreView) -> bool {
    forall|k: int|
        0 <= k < s.post_photos.len() ==> has_marked_id(
            s.photos,
            (#[trigger] s.post_photos[k]).photo_id,
        )
}

/// The source paths of a photo list, in order.
pub open spec fn photo_paths(items: Seq<PhotoSourceV>) -> Seq<Seq<char>> {
    items.map_values(|p: PhotoSourceV| p.path)
}

/// The source paths of one post's photo files, public then private.
pub open spec fn post_paths(post: PostSourceV) -> Seq<Seq<char>> {
    photo_paths(post.public_photos) + photo_paths(post.private_photos)
}

/// The source paths of every photo file of the tree, in walk order.
pub open spec fn posts_paths(posts: Seq<PostSourceV>) -> Seq<Seq<char>>
    decreases posts.len(),
{
    if posts.len() == 0 {
        Seq::empty()
    } else {
        posts_paths(posts.drop_last()) + post_paths(posts.last())
    }
}

/// Whether a path listing holds no path twice (any real directory walk
/// does).
pub open spec fn paths_distinct(paths: Seq<Seq<char>>) -> bool {
    forall|a: int, b: int| 0 <= a < b < paths.len() ==> paths[a] != paths[b]
}

/// The paths of a listing as a set.
pub open spec fn path_set(paths: Seq<Seq<char>>) -> Set<Seq<char>> {
    Set::new(|p: Seq<char>| paths.contains(p))
}

proof fn lemma_photo_step_links(
    s: StoreView,
    post_id: Seq<char>,
    e: PhotoSourceV,
    is_private: bool,
    max_size: u32,
    quality: u8,
    seen: Set<Seq<char>>,
)
    requires
        links_live(s),
        marked_within(s.photos, seen),
        !seen.contains(e.path),
        photo_step(s, post_id, e, is_private, max_size, quality) is Some,
    ensures
        links_live(photo_step(s, post_id, e, is_private, max_size, quality)->0),
        marked_within(
            photo_step(s, post_id, e, is_private, max_size, quality)->0.photos,
            seen.insert(e.path),
        ),
{
    let s1 = photo_step(s, post_id, e, is_private, max_size, quality)->0;
    assert forall|i: int|
        0 <= i < s.photos.len() && (#[trigger] s.photos[i]).mark implies seen.insert(
        e.path,
    ).contains(s.photos[i].source_path) by {}
    lemma_sync_marked_within(s.photos, e, is_private, max_size, quality, seen.insert(e.path));
    let after = photo_sync_photos(s.photos, e, is_private, max_size, quality);
    let base = crate::photo::sync_base(s.photos, e.path);
    // A marked row survives the removal of the stale row, which is
    // unmarked because its path is this event's, not yet seen.
    assert forall|id: Seq<char>| has_marked_id(s.photos, id) implies has_marked_id(base, id) by {
        let iw = choose|i: int|
            0 <= i < s.photos.len() && (#[trigger] s.photos[i]).mark && s.photos[i].id == id;
        if has_photo_path(s.photos, e.path) {
            let d = photo_path_index(s.photos, e.path);
            assert(0 <= d < s.photos.len() && s.photos[d].source_path == e.path);
            assert(base =~= s.photos.remove(d));
            assert(iw != d);
            if iw < d {
                assert(base[iw] == s.photos[iw]);
            } else {
                assert(base[iw - 1] == s.photos[iw]);
            }
        } else {
            assert(base[iw] == s.photos[iw]);
        }
    }
    match sync_case_of(s.photos, e, max_size, quality) {
        SyncCase::Reused => {
            let d = photo_path_index(s.photos, e.path);
            assert(0 <= d < s.photos.len() && s.photos[d].source_path == e.path);
            assert(after =~= s.photos.update(d, s.photos[d].with_mark(true)));
            assert forall|k: int| 0 <= k < s1.post_photos.len() implies has_marked_id(
                s1.photos,
                (#[trigger] s1.post_photos[k]).photo_id,
            ) by {
                if k < s.post_photos.len() {
                    assert(has_marked_id(s.photos, s.post_photos[k].photo_id));
                    let iw = choose|i: int|
                        0 <= i < s.photos.len() && (#[trigger] s.photos[i]).mark && s.photos[i].id
                            == s.post_photos[k].photo_id;
                    assert(s1.photos[iw].mark && s1.photos[iw].id == s.photos[iw].id);
                } else {
                    assert(s1.post_photos[k].photo_id == s.photos[d].id);
                    assert(s1.photos[d].mark && s1.photos[d].id == s.photos[d].id);
                }
            }
        },
        SyncCase::Created => {
            assert(after =~= base.push(
                created_photo_row(
                    e,
                    is_private,
                    (renditions_of(e.data, max_size, quality)->0).0,
                    (renditions_of(e.data, max_size, quality)->0).1,
                ),
            ));
            assert forall|k: int| 0 <= k < s1.post_photos.len() implies has_marked_id(
                s1.photos,
                (#[trigger] s1.post_photos[k]).photo_id,
            ) by {
                if k < s.post_photos.len() {
                    assert(has_marked_id(s.photos, s.post_photos[k].photo_id));
                    assert(has_marked_id(base, s.post_photos[k].photo_id));
                    let iw = choose|i: int|
                        0 <= i < base.len() && (#[trigger] base[i]).mark && base[i].id
                            == s.post_photos[k].photo_id;
                    assert(s1.photos[iw] == base[iw]);
                } else {
                    let last = s1.photos.len() - 1;
                    assert(s1.photos[last].mark);
                    assert(s1.photos[last].id == derived_id(e.path));
                    assert(s1.post_photos[k].photo_id == photo_sync_result(
                        s.photos,
                        e,
                        is_private,
                        max_size,
                        quality,
                    ).id);
                }
            }
        },
        _ => {
            assert(after == base);
            assert(s1.post_photos == s.post_photos);
            assert forall|k: int| 0 <= k < s1.post_photos.len() implies has_marked_id(
                s1.photos,
                (#[trigger] s1.post_photos[k]).photo_id,
            ) by {
                assert(has_marked_id(s.photos, s.post_photos[k].photo_id));
                assert(has_marked_id(base, s.post_photos[k].photo_id));
            }
        },
    }
}

proof fn lemma_photos_pass_links(
    s: StoreView,
    post_id: Seq<char>,
    items: Seq<PhotoSourceV>,
    is_private: bool,
    max_size: u32,
    quality: u8,
    seen: Set<Seq<char>>,
)
    requires
        links_live(s),
        marked_within(s.photos, seen),
        photos_pass(s, post_id, items, is_private, max_size, quality) is Some,
        forall|i: int| 0 <= i < items.len() ==> !seen.contains((#[trigger] items[i]).path),
        paths_distinct(photo_paths(items)),
    ensures
        links_live(photos_pass(s, post_id, items, is_private, max_size, quality)->0),
        marked_within(
            photos_pass(s, post_id, items, is_private, max_size, quality)->0.photos,
            seen.union(path_set(photo_paths(items))),
        ),
    decreases items.len(),
{
    if items.len() == 0 {
        assert forall|i: int|
            0 <= i < s.photos.len() && (#[trigger] s.photos[i]).mark implies seen.union(
            path_set(photo_paths(items)),
        ).contains(s.photos[i].source_path) by {}
    } else {
        let rest = items.drop_last();
        let e = items.last();
        assert forall|i: int| 0 <= i < rest.len() implies !seen.contains(
            (#[trigger] rest[i]).path,
        ) by {
            assert(rest[i] == items[i]);
        }
        assert forall|a: int, b: int|
            0 <= a < b < photo_paths(rest).len() implies photo_paths(rest)[a] != photo_paths(
            rest,
        )[b] by {
            assert(photo_paths(items)[a] != photo_paths(items)[b]);
        }
        lemma_photos_pass_links(s, post_id, rest, is_private, max_size, quality, seen);
        let s1 = photos_pass(s, post_id, rest, is_private, max_size, quality)->0;
        let seen1 = seen.union(path_set(photo_paths(rest)));
        assert(!seen1.contains(e.path)) by {
            if path_set(photo_paths(rest)).contains(e.path) {
                let w = choose|w: int|
                    0 <= w < photo_paths(rest).len() && photo_paths(rest)[w] == e.path;
                assert(photo_paths(items)[w] == photo_paths(items)[items.len() - 1]);
            }
        }
        lemma_photo_step_links(s1, post_id, e, is_private, max_size, quality, seen1);
        let s2 = photo_step(s1, post_id, e, is_private, max_size, quality)->0;
        assert forall|i: int|
            0 <= i < s2.photos.len() && (#[trigger] s2.photos[i]).mark implies seen.union(
            path_set(photo_paths(items)),
        ).contains(s2.photos[i].source_path) by {
            assert(seen1.insert(e.path).contains(s2.photos[i].source_path));
            let p = s2.photos[i].source_path;
            if p == e.path {
                assert(photo_paths(items)[items.len() - 1] == p);
                assert(photo_paths(items).contains(p));
            } else if path_set(photo_paths(rest)).contains(p) {
                let w = choose|w: int|
                    0 <= w < photo_paths(rest).len() && photo_paths(rest)[w] == p;
                assert(photo_paths(items)[w] == p);
                assert(photo_paths(items).contains(p));
            }
        }
    }
}

/// The paths of a joined listing are the paths of its parts.
proof fn lemma_path_set_concat(a: Seq<Seq<char>>, b: Seq<Seq<char>>)
    ensures
        path_set(a + b) == path_set(a).union(path_set(b)),
{
    assert forall|p: Seq<char>| #[trigger] path_set(a + b).contains(p) implies path_set(a).union(
        path_set(b),
    ).contains(p) by {
        let w = choose|w: int| 0 <= w < (a + b).len() && (a + b)[w] == p;
        if w < a.len() {
            assert(a[w] == p);
        } else {
            assert(b[w - a.len()] == p);
        }
    }
    assert forall|p: Seq<char>| path_set(a).union(path_set(b)).contains(p) implies #[trigger] path_set(
        a + b,
    ).contains(p) by {
        if path_set(a).contains(p) {
            let w = choose|w: int| 0 <= w < a.len() && a[w] == p;
            assert((a + b)[w] == p);
        } else {
            let w = choose|w: int| 0 <= w < b.len() && b[w] == p;
            assert((a + b)[a.len() + w] == p);
        }
    }
    assert(path_set(a + b) =~= path_set(a).union(path_set(b)));
}

proof fn lemma_post_pass_links(
    s: StoreView,
    post: PostSourceV,
    max_size: u32,
    quality: u8,
    seen: Set<Seq<char>>,
)
    requires
        links_live(s),
        marked_within(s.photos, seen),
        post_pass(s, post, max_size, quality) is Some,
        forall|i: int| 0 <= i < post_paths(post).len() ==> !seen.contains(#[trigger] post_paths(post)[i]),
        paths_distinct(post_paths(post)),
    ensures
        links_live(post_pass(s, post, max_size, quality)->0),
        marked_within(
            post_pass(s, post, max_size, quality)->0.photos,
            seen.union(path_set(post_paths(post))),
        ),
{
    let pub_paths = photo_paths(post.public_photos);
    let priv_paths = photo_paths(post.private_photos);
    let row = crate::post::post_row_of(post);
    let s1 = StoreView { posts: s.posts.push(row), ..s };
    assert(links_live(s1));
    lemma_assets_pass_keeps_photos(s1, row.id, post.assets);
    let s2 = crate::asset::assets_pass(s1, row.id, post.assets)->0;
    assert(links_live(s2));
    assert forall|i: int| 0 <= i < post.public_photos.len() implies !seen.contains(
        (#[trigger] post.public_photos[i]).path,
    ) by {
        assert(post_paths(post)[i] == post.public_photos[i].path);
    }
    assert forall|a: int, b: int| 0 <= a < b < pub_paths.len() implies pub_paths[a] != pub_paths[b] by {
        assert(post_paths(post)[a] == pub_paths[a]);
        assert(post_paths(post)[b] == pub_paths[b]);
    }
    lemma_photos_pass_links(s2, row.id, post.public_photos, false, max_size, quality, seen);
    let s3 = photos_pass(s2, row.id, post.public_photos, false, max_size, quality)->0;
    let seen1 = seen.union(path_set(pub_paths));
    assert forall|i: int| 0 <= i < post.private_photos.len() implies !seen1.contains(
        (#[trigger] post.private_photos[i]).path,
    ) by {
        let p = post.private_photos[i].path;
        assert(post_paths(post)[pub_paths.len() + i] == p);
        if path_set(pub_paths).contains(p) {
            let w = choose|w: int| 0 <= w < pub_paths.len() && pub_paths[w] == p;
            assert(post_paths(post)[w] == p);
        }
    }
    assert forall|a: int, b: int|
        0 <= a < b < priv_paths.len() implies priv_paths[a] != priv_paths[b] by {
        assert(post_paths(post)[pub_paths.len() + a] == priv_paths[a]);
        assert(post_paths(post)[pub_paths.len() + b] == priv_paths[b]);
    }
    lemma_photos_pass_links(s3, row.id, post.private_photos, true, max_size, quality, seen1);
    lemma_path_set_concat(pub_paths, priv_paths);
    let fin = post_pass(s, post, max_size, quality)->0;
    let s4 = photos_pass(s3, row.id, post.private_photos, true, max_size, quality)->0;
    assert(fin.photos == s4.photos && fin.post_photos == s4.post_photos);
    assert(seen1.union(path_set(priv_paths)) =~= seen.union(path_set(post_paths(post))));
    assert(links_live(fin));
}

proof fn lemma_posts_pass_links(
    s: StoreView,
    posts: Seq<PostSourceV>,
    max_size: u32,
    quality: u8,
    seen: Set<Seq<char>>,
)
    requires
        links_live(s),
        marked_within(s.photos, seen),
        posts_pass(s, posts, max_size, quality) is Some,
        forall|i: int| 0 <= i < posts_paths(posts).len() ==> !seen.contains(#[trigger] posts_paths(posts)[i]),
        paths_distinct(posts_paths(posts)),
    ensures
        links_live(posts_pass(s, posts, max_size, quality)->0),
        marked_within(
            posts_pass(s, posts, max_size, quality)->0.photos,
            seen.union(path_set(posts_paths(posts))),
        ),
    decreases posts.len(),
{
    if posts.len() == 0 {
        assert(path_set(posts_paths(posts)) =~= Set::<Seq<char>>::empty());
        assert(seen.union(path_set(posts_paths(posts))) =~= seen);
    } else {
        let rest = posts.drop_last();
        let last = posts.last();
        let rest_paths = posts_paths(rest);
        let last_paths = post_paths(last);
        assert(posts_paths(posts) == rest_paths + last_paths);
        assert forall|i: int| 0 <= i < rest_paths.len() implies !seen.contains(
            #[trigger] rest_paths[i],
        ) by {
            assert(posts_paths(posts)[i] == rest_paths[i]);
        }
        assert forall|a: int, b: int|
            0 <= a < b < rest_paths.len() implies rest_paths[a] != rest_paths[b] by {
            assert(posts_paths(posts)[a] == rest_paths[a]);
            assert(posts_paths(posts)[b] == rest_paths[b]);
        }
        lemma_posts_pass_links(s, rest, max_size, quality, seen);
        let s1 = posts_pass(s, rest, max_size, quality)->0;
        let seen1 = seen.union(path_set(rest_paths));
        if last.metadata is None {
            // The post is skipped: the state is unchanged, and every marked
            // path already lies in the smaller seen-set.
            assert forall|i: int|
                0 <= i < s1.photos.len() && (#[trigger] s1.photos[i]).mark implies seen.union(
                path_set(posts_paths(posts)),
            ).contains(s1.photos[i].source_path) by {
                let p = s1.photos[i].source_path;
                assert(seen1.contains(p));
                if path_set(rest_paths).contains(p) {
                    let w = choose|w: int| 0 <= w < rest_paths.len() && rest_paths[w] == p;
                    assert(posts_paths(posts)[w] == p);
                }
            }
        } else {
            assert forall|i: int| 0 <= i < last_paths.len() implies !seen1.contains(
                #[trigger] last_paths[i],
            ) by {
                let p = last_paths[i];
                assert(posts_paths(posts)[rest_paths.len() + i] == p);
                if path_set(rest_paths).contains(p) {
                    let w = choose|w: int| 0 <= w < rest_paths.len() && rest_paths[w] == p;
                    assert(posts_paths(posts)[w] == p);
                }
            }
            assert forall|a: int, b: int|
                0 <= a < b < last_paths.len() implies last_paths[a] != last_paths[b] by {
                assert(posts_paths(posts)[rest_paths.len() + a] == last_paths[a]);
                assert(posts_paths(posts)[rest_paths.len() + b] == last_paths[b]);
            }
            lemma_post_pass_links(s1, last, max_size, quality, seen1);
            lemma_path_set_concat(rest_paths, last_paths);
            assert(seen1.union(path_set(last_paths)) =~= seen.union(
                path_set(posts_paths(posts)),
            ));
        }
    }
}

/// Whether some photo row holds this identifier.
pub open spec fn has_stored_id(photos: Seq<PhotoRowV>, id: Seq<char>) -> bool {
    exists|i: int| 0 <= i < photos.len() && (#[trigger] photos[i]).id == id
}

/// Whether every post-to-photo association of a store names the
/// identifier of some stored photo row.
pub open spec fn all_links_stored(s: StoreView) -> bool {
    forall|k: int|
        0 <= k < s.post_photos.len() ==> has_stored_id(
            s.photos,
            (#[trigger] s.post_photos[k]).photo_id,
        )
}

/// No dangling associations: after a successful rebuild over a tree whose
/// photo files hold no path twice (any real directory walk), every
/// post-to-photo association names the identifier of a stored photo row.
/// Together with `lemma_deletion_propagation`, removing a photo file
/// removes both its row and every association that could reach it.
pub proof fn lemma_links_reference_stored_photos(
    s: StoreView,
    tree: SourceTreeV,
    max_size: u32,
    quality: u8,
)
    requires
        rebuild_spec(s, tree, max_size, quality) is Some,
        paths_distinct(posts_paths(tree.posts)),
    ensures
        all_links_stored(rebuild_spec(s, tree, max_size, quality)->0),
{
    let c = cleared(s);
    assert(links_live(c));
    assert forall|i: int|
        0 <= i < c.photos.len() && (#[trigger] c.photos[i]).mark implies Set::<
        Seq<char>,
    >::empty().contains(c.photos[i].source_path) by {
        assert(c.photos[i] == s.photos[i].with_mark(false));
    }
    lemma_files_pass_keeps_photos(c, tree.files);
    let s1 = files_pass(c, tree.files)->0;
    assert(links_live(s1));
    lemma_posts_pass_links(s1, tree.posts, max_size, quality, Set::empty());
    let s2 = posts_pass(s1, tree.posts, max_size, quality)->0;
    let fin = rebuild_spec(s, tree, max_size, quality)->0;
    assert(fin.photos == s2.photos.filter(|r: PhotoRowV| r.mark));
    assert(fin.post_photos == s2.post_photos);
    assert forall|k: int| 0 <= k < fin.post_photos.len() implies has_stored_id(
        fin.photos,
        (#[trigger] fin.post_photos[k]).photo_id,
    ) by {
        assert(has_marked_id(s2.photos, s2.post_photos[k].photo_id));
        let iw = choose|i: int|
            0 <= i < s2.photos.len() && (#[trigger] s2.photos[i]).mark && s2.photos[i].id
                == s2.post_photos[k].photo_id;
        s2.photos.lemma_filter_contains(|r: PhotoRowV| r.mark, iw);
        assert(fin.photos.contains(s2.photos[iw]));
        let w = choose|w: int| 0 <= w < fin.photos.len() && fin.photos[w] == s2.photos[iw];
        assert(fin.photos[w].id == fin.post_photos[k].photo_id);
    }
    assert(all_links_stored(fin));
}

} // verus!
